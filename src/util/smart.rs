use vstd::prelude::*;

verus! {

/// How a value is brought to the requested number of fractional digits
/// before it is rendered.
#[derive(Clone, Copy, Debug, PartialEq, Eq)]
pub enum Mode {
    /// To the nearest value, halves away from zero.
    Round,
    /// Toward zero.
    Trunc,
}

/// Position of the first `c` in `s`, or `s.len()` when there is none.
pub open spec fn first_index(s: Seq<char>, c: char) -> nat
    decreases s.len(),
{
    if s.len() == 0 {
        0
    } else if s[0] == c {
        0
    } else {
        1 + first_index(s.drop_first(), c)
    }
}

/// Position of the first '.' in `s`, or `s.len()` when there is none.
pub open spec fn point_index(s: Seq<char>) -> nat {
    first_index(s, '.')
}

/// Whether `s` holds an exponent marker 'e'.
pub open spec fn has_exponent(s: Seq<char>) -> bool {
    exists|j: int| 0 <= j < s.len() && s[j] == 'e'
}

/// Whether `c` is a decimal digit.
pub open spec fn is_digit(c: char) -> bool {
    '0' <= c && c <= '9'
}

/// Every character of `s` in `lo..hi` is a decimal digit.
pub open spec fn all_digits(s: Seq<char>, lo: int, hi: int) -> bool {
    forall|i: int| lo <= i < hi ==> is_digit(#[trigger] s[i])
}

/// The number that the decimal digits `d` spell.
pub open spec fn digits_value(d: Seq<char>) -> nat
    decreases d.len(),
{
    if d.len() == 0 {
        0
    } else {
        digits_value(d.drop_last()) * 10 + ((d.last() as int) - ('0' as int)) as nat
    }
}

/// `n` zero digits.
pub open spec fn zeros(n: nat) -> Seq<char> {
    Seq::new(n, |i: int| '0')
}

/// Length of the leading '-', if any.
pub open spec fn sign_len(s: Seq<char>) -> int {
    if s.len() > 0 && s[0] == '-' {
        1
    } else {
        0
    }
}

/// Position of the exponent marker.
pub open spec fn exp_at(s: Seq<char>) -> int {
    first_index(s, 'e') as int
}

/// End of the integer digits of the mantissa: its point, or the marker.
pub open spec fn int_end(s: Seq<char>) -> int {
    if point_index(s) < exp_at(s) {
        point_index(s) as int
    } else {
        exp_at(s)
    }
}

/// Start of the fractional digits of the mantissa.
pub open spec fn frac_start(s: Seq<char>) -> int {
    if int_end(s) < exp_at(s) {
        int_end(s) + 1
    } else {
        exp_at(s)
    }
}

/// Start of the exponent's digits, after the marker and its '-', if any.
pub open spec fn exp_digits_start(s: Seq<char>) -> int {
    if exp_at(s) + 1 < s.len() && s[exp_at(s) + 1] == '-' {
        exp_at(s) + 2
    } else {
        exp_at(s) + 1
    }
}

/// Whether `s` is a number in exponent form as ryu-style shortest rendering
/// writes it: an optional '-', at least one integer digit, an optional point
/// with digits after it, 'e', an optional '-' and one to three digits
/// ("1.5e20", "-1e-7").
pub open spec fn is_exponent_form(s: Seq<char>) -> bool {
    &&& exp_at(s) < s.len()
    &&& sign_len(s) < int_end(s)
    &&& all_digits(s, sign_len(s), int_end(s))
    &&& all_digits(s, frac_start(s), exp_at(s))
    &&& exp_digits_start(s) < s.len() <= exp_digits_start(s) + 3
    &&& all_digits(s, exp_digits_start(s), s.len() as int)
}

/// The mantissa's digits, without its point.
pub open spec fn mantissa_digits(s: Seq<char>) -> Seq<char> {
    s.subrange(sign_len(s), int_end(s)) + s.subrange(frac_start(s), exp_at(s))
}

/// The exponent's value.
pub open spec fn exponent(s: Seq<char>) -> int {
    let v = digits_value(s.subrange(exp_digits_start(s), s.len() as int)) as int;
    if exp_digits_start(s) == exp_at(s) + 2 {
        -v
    } else {
        v
    }
}

/// The digits `d` with the point placed after the first `q` of them, padded
/// with zeros on the side where digits run out; no point when it would fall
/// at or after the end.
pub open spec fn shifted(d: Seq<char>, q: int) -> Seq<char> {
    if q >= d.len() {
        d + zeros((q - d.len()) as nat)
    } else if q > 0 {
        d.take(q) + seq!['.'] + d.skip(q)
    } else {
        seq!['0', '.'] + zeros((-q) as nat) + d
    }
}

/// `s` in plain decimal notation when it is in exponent form ("1.5e20"
/// becomes "150000000000000000000", "1e-7" becomes "0.0000001"); any other
/// text as it is.
pub open spec fn expanded(s: Seq<char>) -> Seq<char> {
    if is_exponent_form(s) {
        s.take(sign_len(s)) + shifted(
            mantissa_digits(s),
            int_end(s) - sign_len(s) + exponent(s),
        )
    } else {
        s
    }
}

/// `s` without its trailing '0' characters.
pub open spec fn strip_trailing_zeros(s: Seq<char>) -> Seq<char>
    decreases s.len(),
{
    if s.len() > 0 && s.last() == '0' {
        strip_trailing_zeros(s.drop_last())
    } else {
        s
    }
}

/// `s` without a final '.', when it ends in one.
pub open spec fn strip_trailing_point(s: Seq<char>) -> Seq<char> {
    if s.len() > 0 && s.last() == '.' {
        s.drop_last()
    } else {
        s
    }
}

/// How much of `s` survives the cut: everything up to the point and at most
/// `precision` characters after it.
pub open spec fn kept_len(s: Seq<char>, precision: nat) -> nat {
    if point_index(s) + 1 + precision < s.len() {
        point_index(s) + 1 + precision
    } else {
        s.len()
    }
}

/// A decimal number cut after `precision` fractional digits, then stripped
/// of trailing zeros and of a bare trailing point. Text without a point is
/// left as it is.
pub open spec fn trimmed(s: Seq<char>, precision: nat) -> Seq<char> {
    if point_index(s) < s.len() {
        strip_trailing_point(strip_trailing_zeros(s.take(kept_len(s, precision) as int)))
    } else {
        s
    }
}

/// The first `c` sits at `d` when no character before `d` is `c` and `d` is
/// either the end or a `c` itself.
proof fn lemma_first_index(s: Seq<char>, c: char, d: nat)
    requires
        d <= s.len(),
        forall|j: int| 0 <= j < d ==> s[j] != c,
        d == s.len() || s[d as int] == c,
    ensures
        first_index(s, c) == d,
    decreases d,
{
    if d > 0 {
        let t = s.drop_first();
        assert forall|j: int| 0 <= j < d - 1 implies t[j] != c by {
            assert(t[j] == s[j + 1]);
        }
        if d < s.len() {
            assert(t[d - 1] == s[d as int]);
        }
        lemma_first_index(t, c, (d - 1) as nat);
    }
}

/// Finds the first `c` in `text`, or its length when there is none.
fn find_char(text: &str, c: char) -> (r: usize)
    ensures
        r == first_index(text@, c),
        r <= text@.len(),
        forall|j: int| 0 <= j < r ==> text@[j] != c,
        r < text@.len() ==> text@[r as int] == c,
{
    let n = text.unicode_len();
    let mut i: usize = 0;
    while i < n && text.get_char(i) != c
        invariant
            i <= n,
            n == text@.len(),
            forall|j: int| 0 <= j < i ==> text@[j] != c,
        decreases n - i,
    {
        i = i + 1;
    }
    proof {
        lemma_first_index(text@, c, i as nat);
    }
    i
}

/// Whether every character of `text` in `lo..hi` is a decimal digit.
fn digits_between(text: &str, lo: usize, hi: usize) -> (r: bool)
    requires
        lo <= hi <= text@.len(),
    ensures
        r == all_digits(text@, lo as int, hi as int),
{
    let mut i: usize = lo;
    while i < hi
        invariant
            lo <= i <= hi,
            hi <= text@.len(),
            all_digits(text@, lo as int, i as int),
        decreases hi - i,
    {
        let c = text.get_char(i);
        if !('0' <= c && c <= '9') {
            return false;
        }
        i = i + 1;
    }
    true
}

/// The value of the at most three decimal digits of `text` in `lo..hi`.
fn parse_exponent_digits(text: &str, lo: usize, hi: usize) -> (v: u64)
    requires
        lo <= hi <= text@.len(),
        hi - lo <= 3,
        all_digits(text@, lo as int, hi as int),
    ensures
        v == digits_value(text@.subrange(lo as int, hi as int)),
        v < 1000,
{
    let mut v: u64 = 0;
    let mut i: usize = lo;
    while i < hi
        invariant
            lo <= i <= hi,
            hi <= text@.len(),
            hi - lo <= 3,
            all_digits(text@, lo as int, hi as int),
            v == digits_value(text@.subrange(lo as int, i as int)),
            i - lo == 0 ==> v < 1,
            i - lo == 1 ==> v < 10,
            i - lo == 2 ==> v < 100,
            i - lo == 3 ==> v < 1000,
        decreases hi - i,
    {
        let c = text.get_char(i);
        assert(is_digit(text@[i as int]));
        assert(text@.subrange(lo as int, i + 1).drop_last() =~= text@.subrange(lo as int, i as int));
        v = v * 10 + ((c as u32) - ('0' as u32)) as u64;
        i = i + 1;
    }
    v
}

/// Appends `k` zero digits to `out`.
fn append_zeros(out: &mut String, k: u128)
    ensures
        final(out)@ == old(out)@ + zeros(k as nat),
{
    let ghost start = out@;
    assert(out@ =~= start + zeros(0));
    let mut j: u128 = 0;
    while j < k
        invariant
            j <= k,
            out@ == start + zeros(j as nat),
        decreases k - j,
    {
        out.append("0");
        proof {
            reveal_strlit("0");
            assert(start + zeros((j + 1) as nat) =~= start + zeros(j as nat) + "0"@);
        }
        j = j + 1;
    }
}

/// Appends the digits `digits` to `out` with the point placed after the
/// first `q` of them.
fn append_shifted(out: &mut String, digits: &str, q: i128)
    requires
        q > i128::MIN,
    ensures
        final(out)@ == old(out)@ + shifted(digits@, q as int),
{
    let ghost head = out@;
    let ghost d = digits@;
    let dl = digits.unicode_len();
    if q >= dl as i128 {
        out.append(digits);
        append_zeros(out, (q - dl as i128) as u128);
        assert(out@ =~= head + shifted(d, q as int));
    } else if q > 0 {
        let qq = q as usize;
        out.append(digits.substring_char(0, qq));
        out.append(".");
        out.append(digits.substring_char(qq, dl));
        proof {
            reveal_strlit(".");
        }
        assert(out@ =~= head + shifted(d, q as int));
    } else {
        out.append("0.");
        append_zeros(out, (-q) as u128);
        out.append(digits);
        proof {
            reveal_strlit("0.");
        }
        assert(out@ =~= head + shifted(d, q as int));
    }
}

/// Shifting digits brings in no exponent marker.
proof fn lemma_shifted_has_no_marker(d: Seq<char>, q: int)
    requires
        forall|j: int| 0 <= j < d.len() ==> is_digit(#[trigger] d[j]),
    ensures
        forall|k: int| 0 <= k < shifted(d, q).len() ==> #[trigger] shifted(d, q)[k] != 'e',
{
    let sh = shifted(d, q);
    assert forall|k: int| 0 <= k < sh.len() implies #[trigger] sh[k] != 'e' by {
        if q >= d.len() {
            if k < d.len() {
                assert(is_digit(d[k]));
            } else {
                assert(sh[k] == zeros((q - d.len()) as nat)[k - d.len()]);
            }
        } else if q > 0 {
            if k < q {
                assert(sh[k] == d[k]);
                assert(is_digit(d[k]));
            } else if k > q {
                assert(sh[k] == d[k - 1]);
                assert(is_digit(d[k - 1]));
            }
        } else {
            if k >= 2 + (-q) {
                assert(sh[k] == d[k - 2 - (-q)]);
                assert(is_digit(d[k - 2 - (-q)]));
            } else if k >= 2 {
                assert(sh[k] == zeros((-q) as nat)[k - 2]);
            }
        }
    }
}

/// Rewrites a number in exponent form into plain decimal notation by moving
/// the mantissa's point by the exponent and padding with zeros ("1.5e20"
/// becomes "150000000000000000000", "-1.25e-3" becomes "-0.00125"). Text not
/// in exponent form comes back as it is.
pub fn expand_exponent(text: &str) -> (r: String)
    ensures
        r@ == expanded(text@),
        is_exponent_form(text@) ==> !has_exponent(r@),
{
    let n = text.unicode_len();
    let ei = find_char(text, 'e');
    if ei == n {
        return String::from_str(text);
    }
    let dot = find_char(text, '.');
    let sl: usize = if text.get_char(0) == '-' {
        1
    } else {
        0
    };
    let ie: usize = if dot < ei {
        dot
    } else {
        ei
    };
    let fs: usize = if ie < ei {
        ie + 1
    } else {
        ei
    };
    let xs: usize = if ei + 1 < n && text.get_char(ei + 1) == '-' {
        ei + 2
    } else {
        ei + 1
    };
    if !(sl < ie) || !digits_between(text, sl, ie) || !digits_between(text, fs, ei) || !(xs < n)
        || n - xs > 3 || !digits_between(text, xs, n) {
        return String::from_str(text);
    }
    assert(is_exponent_form(text@));
    let xv = parse_exponent_digits(text, xs, n);
    let mut digits = String::from_str(text.substring_char(sl, ie));
    digits.append(text.substring_char(fs, ei));
    let ghost d = mantissa_digits(text@);
    assert(digits@ =~= d);
    let q: i128 = if xs == ei + 2 {
        (ie - sl) as i128 - xv as i128
    } else {
        (ie - sl) as i128 + xv as i128
    };
    assert(q == int_end(text@) - sign_len(text@) + exponent(text@));
    let mut out = String::from_str(text.substring_char(0, sl));
    let ghost head = out@;
    assert(head =~= text@.take(sign_len(text@)));
    append_shifted(&mut out, digits.as_str(), q);
    proof {
        assert forall|j: int| 0 <= j < d.len() implies is_digit(#[trigger] d[j]) by {
            if j < ie - sl {
                assert(d[j] == text@[sl + j]);
            } else {
                assert(d[j] == text@[fs + j - (ie - sl)]);
            }
        }
        lemma_shifted_has_no_marker(d, q as int);
        let sh = shifted(d, q as int);
        assert forall|j: int| 0 <= j < out@.len() implies out@[j] != 'e' by {
            if j >= head.len() {
                assert(out@[j] == sh[j - head.len()]);
            }
        }
    }
    out
}

/// Cuts the decimal text `text` after `precision` fractional digits and
/// removes trailing zeros and a bare trailing point.
fn cut_fraction(text: &str, precision: usize) -> (r: String)
    ensures
        r@ == trimmed(text@, precision as nat),
        r@.is_prefix_of(text@),
        point_index(text@) <= r@.len(),
        precision == 0 ==> forall|j: int| 0 <= j < r@.len() ==> r@[j] != '.',
{
    let n = text.unicode_len();
    let dot = find_char(text, '.');
    if dot == n {
        return String::from_str(text);
    }
    let kept: usize = if precision < n - dot {
        dot + 1 + precision
    } else {
        n
    };
    assert(kept == kept_len(text@, precision as nat));
    let mut end: usize = kept;
    while end > 0 && text.get_char(end - 1) == '0'
        invariant
            dot < end <= n,
            n == text@.len(),
            text@[dot as int] == '.',
            strip_trailing_zeros(text@.take(end as int)) == strip_trailing_zeros(
                text@.take(kept as int),
            ),
        decreases end,
    {
        assert(text@.take(end - 1) =~= text@.take(end as int).drop_last());
        end = end - 1;
    }
    assert(strip_trailing_zeros(text@.take(end as int)) == text@.take(end as int));
    if end > 0 && text.get_char(end - 1) == '.' {
        assert(text@.take(end - 1) =~= text@.take(end as int).drop_last());
        end = end - 1;
    }
    String::from_str(text.substring_char(0, end))
}

/// Renders the number text `text` (as a shortest float rendering writes it)
/// with at most `precision` fractional digits: exponent form is first
/// rewritten in plain decimal notation, then the text is cut after
/// `precision` fractional digits and stripped of trailing zeros and a bare
/// trailing point ("2.000" at precision 3 becomes "2", "1.2345" at precision
/// 2 becomes "1.23", "1e-7" at precision 8 becomes "0.0000001"). The sign
/// and the integer digits are never touched; at precision 0 no point is left.
/// The cut is textual: rounding, where wanted, is done on the value before it
/// is rendered.
pub fn trim_to_precision(text: &str, precision: usize) -> (r: String)
    ensures
        r@ == trimmed(expanded(text@), precision as nat),
        r@.is_prefix_of(expanded(text@)),
        point_index(expanded(text@)) <= r@.len(),
        is_exponent_form(text@) ==> !has_exponent(r@),
        precision == 0 ==> forall|j: int| 0 <= j < r@.len() ==> r@[j] != '.',
{
    let plain = expand_exponent(text);
    let r = cut_fraction(plain.as_str(), precision);
    proof {
        if is_exponent_form(text@) {
            assert forall|j: int| 0 <= j < r@.len() implies r@[j] != 'e' by {
                assert(r@[j] == plain@[j]);
            }
        }
    }
    r
}

} // verus!
