pub mod smart;
