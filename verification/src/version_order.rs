//! Which of two versions is newer.
//!
//! A version is read as segments separated by `.`. Segments are compared in turn: two
//! numbers by their value, a number above any other text, two other texts char by char.
//! When every segment compares equal, the version with fewer segments is the older one.
use vstd::prelude::*;
use vstd::string::StrSliceExecFns;

use crate::version::VersionSpecView;
use crate::text::{
    all_decimal_digits, decimal_value, join_with, find_char, first_index_of, is_decimal_digit, lemma_first_index_of,
    prefix_to, suffix_from,
};

verus! {

/// The pieces of `s` between the `sep`s.
pub open spec fn split_on(s: Seq<char>, sep: char) -> Seq<Seq<char>>
    decreases s.len(),
{
    let k = first_index_of(s, sep);
    proof {
        lemma_first_index_of(s, sep);
    }
    if k >= s.len() {
        seq![s]
    } else {
        seq![s.subrange(0, k)] + split_on(s.subrange(k + 1, s.len() as int), sep)
    }
}

/// Lexicographic order on texts, char by char; a proper prefix comes first.
pub open spec fn chars_lt(a: Seq<char>, b: Seq<char>) -> bool
    decreases a.len(),
{
    if b.len() == 0 {
        false
    } else if a.len() == 0 {
        true
    } else if a[0] != b[0] {
        (a[0] as int) < (b[0] as int)
    } else {
        chars_lt(a.drop_first(), b.drop_first())
    }
}

/// A segment that is a number: one or more ASCII digits.
pub open spec fn is_number(s: Seq<char>) -> bool {
    s.len() > 0 && all_decimal_digits(s)
}

/// The number of `0`s that lead `s`.
pub open spec fn leading_zeros(s: Seq<char>) -> int
    decreases s.len(),
{
    if s.len() > 0 && s[0] == '0' {
        1 + leading_zeros(s.drop_first())
    } else {
        0
    }
}

/// The digits of a number without its leading zeros.
pub open spec fn significant(s: Seq<char>) -> Seq<char> {
    s.subrange(leading_zeros(s), s.len() as int)
}

/// The order of numbers written in digits: more significant digits make a larger number;
/// with as many, the first digit that differs decides.
pub open spec fn number_lt(a: Seq<char>, b: Seq<char>) -> bool {
    let x = significant(a);
    let y = significant(b);
    x.len() < y.len() || (x.len() == y.len() && chars_lt(x, y))
}

/// The order of version segments.
pub open spec fn segment_lt(a: Seq<char>, b: Seq<char>) -> bool {
    if is_number(a) && is_number(b) {
        number_lt(a, b)
    } else if is_number(a) {
        false
    } else if is_number(b) {
        true
    } else {
        chars_lt(a, b)
    }
}

/// The order of versions given as segments.
pub open spec fn segments_lt(a: Seq<Seq<char>>, b: Seq<Seq<char>>) -> bool
    decreases a.len(),
{
    if b.len() == 0 {
        false
    } else if a.len() == 0 {
        true
    } else if segment_lt(a[0], b[0]) {
        true
    } else if segment_lt(b[0], a[0]) {
        false
    } else {
        segments_lt(a.drop_first(), b.drop_first())
    }
}

/// Version `a` is older than version `b`.
pub open spec fn version_lt(a: Seq<char>, b: Seq<char>) -> bool {
    segments_lt(split_on(a, '.'), split_on(b, '.'))
}

proof fn lemma_chars_lt_order(a: Seq<char>, b: Seq<char>, c: Seq<char>)
    ensures
        !chars_lt(a, a),
        a == b || chars_lt(a, b) || chars_lt(b, a),
        chars_lt(a, b) ==> !chars_lt(b, a),
        chars_lt(a, b) && chars_lt(b, c) ==> chars_lt(a, c),
    decreases a.len(),
{
    if a.len() > 0 {
        lemma_chars_lt_order(a.drop_first(), a.drop_first(), a.drop_first());
        if b.len() > 0 {
            if c.len() > 0 {
                lemma_chars_lt_order(a.drop_first(), b.drop_first(), c.drop_first());
            } else {
                lemma_chars_lt_order(a.drop_first(), b.drop_first(), b.drop_first());
            }
            if a != b && a[0] == b[0] {
                assert(a.drop_first() != b.drop_first()) by {
                    if a.drop_first() == b.drop_first() {
                        assert forall|i: int| 0 <= i < a.len() implies a[i] == b[i] by {
                            if i > 0 {
                                assert(a[i] == a.drop_first()[i - 1]);
                                assert(b[i] == b.drop_first()[i - 1]);
                            }
                        }
                        assert(a =~= b);
                    }
                }
            }
        }
    } else if b.len() == 0 {
        assert(a =~= b);
    }
}

/// The relation "neither segment comes before the other".
pub open spec fn segment_equiv(a: Seq<char>, b: Seq<char>) -> bool {
    !segment_lt(a, b) && !segment_lt(b, a)
}

proof fn lemma_segment_equiv_is(a: Seq<char>, b: Seq<char>)
    ensures
        segment_equiv(a, b) <==> ((is_number(a) && is_number(b) && significant(a) == significant(
            b,
        )) || (!is_number(a) && !is_number(b) && a == b)),
{
    lemma_chars_lt_order(a, b, b);
    lemma_chars_lt_order(significant(a), significant(b), significant(b));
}

/// Segments are in a strict weak order.
proof fn lemma_segment_order(a: Seq<char>, b: Seq<char>, c: Seq<char>)
    ensures
        !segment_lt(a, a),
        segment_lt(a, b) && segment_lt(b, c) ==> segment_lt(a, c),
        segment_equiv(a, b) && segment_equiv(b, c) ==> segment_equiv(a, c),
        segment_lt(a, b) && segment_equiv(b, c) ==> segment_lt(a, c),
        segment_equiv(a, b) && segment_lt(b, c) ==> segment_lt(a, c),
{
    lemma_chars_lt_order(a, b, c);
    lemma_chars_lt_order(significant(a), significant(b), significant(c));
    lemma_chars_lt_order(a, a, a);
    lemma_chars_lt_order(significant(a), significant(a), significant(a));
    lemma_segment_equiv_is(a, b);
    lemma_segment_equiv_is(b, c);
    lemma_segment_equiv_is(a, c);
}

/// Versions given as segments are in a strict order.
proof fn lemma_segments_order(a: Seq<Seq<char>>, b: Seq<Seq<char>>, c: Seq<Seq<char>>)
    ensures
        !segments_lt(a, a),
        segments_lt(a, b) && segments_lt(b, c) ==> segments_lt(a, c),
    decreases a.len(),
{
    if a.len() > 0 {
        lemma_segment_order(a[0], a[0], a[0]);
        lemma_segments_order(a.drop_first(), a.drop_first(), a.drop_first());
        if b.len() > 0 && c.len() > 0 {
            lemma_segment_order(a[0], b[0], c[0]);
            lemma_segment_order(c[0], b[0], a[0]);
            lemma_segment_order(b[0], c[0], a[0]);
            lemma_segment_order(c[0], a[0], b[0]);
            lemma_segments_order(a.drop_first(), b.drop_first(), c.drop_first());
        }
    }
}

/// No version is older than itself, and being older is transitive; so of two versions at
/// most one is older than the other.
pub proof fn law_version_order_is_strict(a: Seq<char>, b: Seq<char>, c: Seq<char>)
    ensures
        !version_lt(a, a),
        version_lt(a, b) && version_lt(b, c) ==> version_lt(a, c),
        version_lt(a, b) ==> !version_lt(b, a),
{
    lemma_segments_order(split_on(a, '.'), split_on(b, '.'), split_on(c, '.'));
    lemma_segments_order(split_on(a, '.'), split_on(b, '.'), split_on(a, '.'));
}

/// Splits a version into its segments.
fn split_version(s: &str) -> (r: Vec<String>)
    ensures
        r.deep_view() == split_on(s@, '.'),
{
    let mut out: Vec<String> = Vec::new();
    let mut rest = s.to_owned();
    loop
        invariant
            out.deep_view() + split_on(rest@, '.') == split_on(s@, '.'),
        decreases rest@.len(),
    {
        let n = rest.unicode_len();
        let k = find_char(rest.as_str(), '.');
        proof {
            lemma_first_index_of(rest@, '.');
        }
        let piece = prefix_to(rest.as_str(), k);
        let ghost before = out.deep_view();
        if k == n {
            assert(piece@ =~= rest@);
            out.push(piece);
            assert(out.deep_view() =~= before.push(rest@));
            assert(before + split_on(rest@, '.') =~= out.deep_view());
            return out;
        }
        let next = suffix_from(rest.as_str(), k + 1);
        assert(split_on(rest@, '.') =~= seq![piece@] + split_on(next@, '.'));
        out.push(piece);
        assert(out.deep_view() =~= before.push(piece@));
        assert(out.deep_view() + split_on(next@, '.') =~= before + split_on(rest@, '.'));
        rest = next;
    }
}

/// Returns true when `a` comes before `b` char by char.
fn chars_less(a: &str, b: &str) -> (r: bool)
    ensures
        r == chars_lt(a@, b@),
{
    let n = a.unicode_len();
    let m = b.unicode_len();
    let mut i: usize = 0;
    assert(a@.subrange(0, n as int) =~= a@);
    assert(b@.subrange(0, m as int) =~= b@);
    loop
        invariant
            i <= n,
            i <= m,
            n == a@.len(),
            m == b@.len(),
            chars_lt(a@, b@) == chars_lt(
                a@.subrange(i as int, n as int),
                b@.subrange(i as int, m as int),
            ),
        decreases n - i,
    {
        let ghost x = a@.subrange(i as int, n as int);
        let ghost y = b@.subrange(i as int, m as int);
        if i == m {
            return false;
        }
        if i == n {
            return true;
        }
        let ca = a.get_char(i);
        let cb = b.get_char(i);
        assert(x[0] == ca && y[0] == cb);
        if ca != cb {
            return ca < cb;
        }
        assert(x.drop_first() =~= a@.subrange(i + 1, n as int));
        assert(y.drop_first() =~= b@.subrange(i + 1, m as int));
        i = i + 1;
    }
}

/// The position where the leading zeros of `s` end.
fn leading_zero_count(s: &str) -> (r: usize)
    ensures
        r == leading_zeros(s@),
        r <= s@.len(),
{
    let n = s.unicode_len();
    let mut i: usize = 0;
    assert(s@.subrange(0, n as int) =~= s@);
    while i < n && s.get_char(i) == '0'
        invariant
            i <= n,
            n == s@.len(),
            leading_zeros(s@) == i + leading_zeros(s@.subrange(i as int, n as int)),
        decreases n - i,
    {
        assert(s@.subrange(i as int, n as int).drop_first() =~= s@.subrange(i + 1, n as int));
        i = i + 1;
    }
    i
}

/// Returns true when `s` is a number: one or more ASCII digits.
fn is_number_text(s: &str) -> (r: bool)
    ensures
        r == is_number(s@),
{
    let n = s.unicode_len();
    if n == 0 {
        return false;
    }
    for i in 0..n
        invariant
            n == s@.len(),
            forall|j: int| 0 <= j < i ==> is_decimal_digit(#[trigger] s@[j]),
    {
        let c = s.get_char(i);
        if !('0' <= c && c <= '9') {
            assert(!is_decimal_digit(s@[i as int]));
            return false;
        }
    }
    true
}

/// Returns true when segment `a` comes before segment `b`.
fn segment_less(a: &str, b: &str) -> (r: bool)
    ensures
        r == segment_lt(a@, b@),
{
    let na = is_number_text(a);
    let nb = is_number_text(b);
    if na && nb {
        let za = leading_zero_count(a);
        let zb = leading_zero_count(b);
        let x = suffix_from(a, za);
        let y = suffix_from(b, zb);
        let lx = x.as_str().unicode_len();
        let ly = y.as_str().unicode_len();
        lx < ly || (lx == ly && chars_less(x.as_str(), y.as_str()))
    } else if na {
        false
    } else if nb {
        true
    } else {
        chars_less(a, b)
    }
}

/// Returns true when version `a` is older than version `b`.
pub fn version_less(a: &str, b: &str) -> (r: bool)
    ensures
        r == version_lt(a@, b@),
{
    let sa = split_version(a);
    let sb = split_version(b);
    let ghost x = sa.deep_view();
    let ghost y = sb.deep_view();
    let mut i: usize = 0;
    assert(x.subrange(0, x.len() as int) =~= x);
    assert(y.subrange(0, y.len() as int) =~= y);
    loop
        invariant
            i <= sa.len(),
            i <= sb.len(),
            x == sa.deep_view(),
            y == sb.deep_view(),
            version_lt(a@, b@) == segments_lt(
                x.subrange(i as int, x.len() as int),
                y.subrange(i as int, y.len() as int),
            ),
        decreases sa.len() - i,
    {
        let ghost p = x.subrange(i as int, x.len() as int);
        let ghost q = y.subrange(i as int, y.len() as int);
        if i == sb.len() {
            return false;
        }
        if i == sa.len() {
            return true;
        }
        assert(p[0] == sa@[i as int]@ && q[0] == sb@[i as int]@);
        if segment_less(sa[i].as_str(), sb[i].as_str()) {
            return true;
        }
        if segment_less(sb[i].as_str(), sa[i].as_str()) {
            return false;
        }
        assert(p.drop_first() =~= x.subrange(i + 1, x.len() as int));
        assert(q.drop_first() =~= y.subrange(i + 1, y.len() as int));
        i = i + 1;
    }
}

/// Index of the newest version of `vs` that `spec` matches (the first of equally new
/// ones), or `vs.len()` when none matches.
pub open spec fn newest_match(vs: Seq<Seq<char>>, spec: VersionSpecView) -> int
    decreases vs.len(),
{
    if vs.len() == 0 {
        0
    } else {
        let n = vs.len() - 1;
        let k = newest_match(vs.drop_last(), spec);
        if !spec.matches(vs[n]) {
            if k < n {
                k
            } else {
                vs.len() as int
            }
        } else if k >= n {
            n
        } else if version_lt(vs[k], vs[n]) {
            n
        } else {
            k
        }
    }
}

/// The newest match matches, and no version that matches is newer; there is none exactly
/// when no version matches.
pub proof fn law_newest_match(vs: Seq<Seq<char>>, spec: VersionSpecView)
    ensures
        0 <= newest_match(vs, spec) <= vs.len(),
        newest_match(vs, spec) < vs.len() ==> spec.matches(vs[newest_match(vs, spec)]),
        newest_match(vs, spec) < vs.len() ==> forall|j: int|
            0 <= j < vs.len() && spec.matches(#[trigger] vs[j]) ==> !version_lt(
                vs[newest_match(vs, spec)],
                vs[j],
            ),
        newest_match(vs, spec) == vs.len() ==> forall|j: int|
            0 <= j < vs.len() ==> !spec.matches(#[trigger] vs[j]),
    decreases vs.len(),
{
    if vs.len() > 0 {
        let p = vs.drop_last();
        let n = vs.len() - 1;
        law_newest_match(p, spec);
        let k = newest_match(p, spec);
        assert forall|j: int| 0 <= j < n implies vs[j] == #[trigger] p[j] by {}
        let m = newest_match(vs, spec);
        if m == vs.len() {
            assert forall|j: int| 0 <= j < vs.len() implies !spec.matches(#[trigger] vs[j]) by {
                if j < n {
                    assert(vs[j] == p[j]);
                }
            }
        }
        if m < vs.len() {
            assert forall|j: int| 0 <= j < vs.len() && spec.matches(#[trigger] vs[j]) implies !version_lt(
                vs[m],
                vs[j],
            ) by {
                law_version_order_is_strict(vs[m], vs[j], vs[j]);
                if j < n {
                    assert(vs[j] == p[j]);
                    if k < n {
                        law_version_order_is_strict(vs[n], vs[j], vs[j]);
                        law_version_order_is_strict(p[k], vs[n], vs[j]);
                    }
                } else {
                    if k < n {
                        law_version_order_is_strict(p[k], vs[n], vs[n]);
                    }
                }
            }
        }
    }
}

/// Ten to the power `n`.
pub open spec fn pow10(n: nat) -> int
    decreases n,
{
    if n == 0 {
        1
    } else {
        10 * pow10((n - 1) as nat)
    }
}

/// The value of one ASCII digit.
pub open spec fn digit_value(c: char) -> int {
    c as int - '0' as int
}

proof fn lemma_pow10_positive(n: nat)
    ensures
        pow10(n) >= 1,
    decreases n,
{
    if n > 0 {
        lemma_pow10_positive((n - 1) as nat);
    }
}

proof fn lemma_pow10(n: nat, m: nat)
    ensures
        pow10(n) >= 1,
        n <= m ==> pow10(n) <= pow10(m),
    decreases m,
{
    lemma_pow10_positive(n);
    if n < m {
        lemma_pow10(n, (m - 1) as nat);
        lemma_pow10_positive((m - 1) as nat);
    }
}

proof fn lemma_digits_drop(s: Seq<char>)
    requires
        all_decimal_digits(s),
        s.len() > 0,
    ensures
        all_decimal_digits(s.drop_last()),
        all_decimal_digits(s.drop_first()),
        is_decimal_digit(s[0]),
        is_decimal_digit(s.last()),
{
    assert(is_decimal_digit(s[0]));
    assert(is_decimal_digit(s[s.len() - 1]));
    assert forall|i: int| 0 <= i < s.drop_last().len() implies is_decimal_digit(
        #[trigger] s.drop_last()[i],
    ) by {
        assert(s.drop_last()[i] == s[i]);
    }
    assert forall|i: int| 0 <= i < s.drop_first().len() implies is_decimal_digit(
        #[trigger] s.drop_first()[i],
    ) by {
        assert(s.drop_first()[i] == s[i + 1]);
    }
}

/// The value of `n` digits is below ten to the `n`.
proof fn lemma_decimal_bound(s: Seq<char>)
    requires
        all_decimal_digits(s),
    ensures
        0 <= decimal_value(s) < pow10(s.len()),
    decreases s.len(),
{
    if s.len() > 0 {
        lemma_digits_drop(s);
        lemma_decimal_bound(s.drop_last());
    }
}

/// The value of digits is the first digit times its place, plus the value of the rest.
proof fn lemma_decimal_front(s: Seq<char>)
    requires
        all_decimal_digits(s),
        s.len() > 0,
    ensures
        decimal_value(s) == digit_value(s[0]) * pow10((s.len() - 1) as nat) + decimal_value(
            s.drop_first(),
        ),
    decreases s.len(),
{
    lemma_digits_drop(s);
    let p = s.drop_last();
    if s.len() == 1 {
        assert(p.len() == 0);
        assert(s.drop_first().len() == 0);
        assert(decimal_value(p) == 0);
        assert(decimal_value(s.drop_first()) == 0);
        assert(s.last() == s[0]);
        assert(pow10(0) == 1);
        assert(decimal_value(s) == decimal_value(p) * 10 + digit_value(s.last()));
    } else {
        lemma_decimal_front(p);
        let t = s.drop_first();
        assert(t.drop_last() =~= p.drop_first());
        assert(t.last() == s.last());
        assert(p[0] == s[0]);
        let d0 = digit_value(s[0]);
        let q = pow10((s.len() - 2) as nat);
        assert(pow10((s.len() - 1) as nat) == 10 * q);
        assert(decimal_value(s) == decimal_value(p) * 10 + digit_value(s.last()));
        assert(decimal_value(t) == decimal_value(t.drop_last()) * 10 + digit_value(t.last()));
        assert(decimal_value(p) == d0 * q + decimal_value(p.drop_first()));
        assert((d0 * q + decimal_value(p.drop_first())) * 10 == d0 * (10 * q) + decimal_value(
            p.drop_first(),
        ) * 10) by (nonlinear_arith);
    }
}

/// Leading zeros do not change the value; what is left has none.
proof fn lemma_significant(s: Seq<char>)
    requires
        all_decimal_digits(s),
    ensures
        decimal_value(significant(s)) == decimal_value(s),
        all_decimal_digits(significant(s)),
        significant(s).len() == 0 || significant(s)[0] != '0',
        0 <= leading_zeros(s) <= s.len(),
    decreases s.len(),
{
    if s.len() > 0 && s[0] == '0' {
        lemma_digits_drop(s);
        let t = s.drop_first();
        lemma_significant(t);
        lemma_decimal_front(s);
        assert(digit_value(s[0]) == 0);
        assert(significant(s) =~= significant(t));
    } else {
        assert(significant(s) =~= s);
    }
}

/// Digits with no leading zero are worth at least ten to the number of digits less one.
proof fn lemma_decimal_lead(s: Seq<char>)
    requires
        all_decimal_digits(s),
        s.len() > 0,
        s[0] != '0',
    ensures
        decimal_value(s) >= pow10((s.len() - 1) as nat),
{
    lemma_digits_drop(s);
    lemma_decimal_front(s);
    lemma_decimal_bound(s.drop_first());
    lemma_pow10((s.len() - 1) as nat, (s.len() - 1) as nat);
    let d0 = digit_value(s[0]);
    let q = pow10((s.len() - 1) as nat);
    assert(d0 >= 1);
    assert(d0 * q >= q) by (nonlinear_arith)
        requires
            d0 >= 1,
            q >= 1,
    ;
}

/// Between digit strings of one length, the char order is the order of their values.
proof fn lemma_equal_length_digits(x: Seq<char>, y: Seq<char>)
    requires
        all_decimal_digits(x),
        all_decimal_digits(y),
        x.len() == y.len(),
    ensures
        chars_lt(x, y) <==> decimal_value(x) < decimal_value(y),
    decreases x.len(),
{
    if x.len() > 0 {
        lemma_digits_drop(x);
        lemma_digits_drop(y);
        lemma_decimal_front(x);
        lemma_decimal_front(y);
        lemma_decimal_bound(x.drop_first());
        lemma_decimal_bound(y.drop_first());
        lemma_equal_length_digits(x.drop_first(), y.drop_first());
        let q = pow10((x.len() - 1) as nat);
        let dx = digit_value(x[0]);
        let dy = digit_value(y[0]);
        let rx = decimal_value(x.drop_first());
        let ry = decimal_value(y.drop_first());
        if dx < dy {
            assert(dx * q + rx < dy * q + ry) by (nonlinear_arith)
                requires
                    dx < dy,
                    0 <= rx < q,
                    0 <= ry,
            ;
        } else if dy < dx {
            assert(dy * q + ry < dx * q + rx) by (nonlinear_arith)
                requires
                    dy < dx,
                    0 <= ry < q,
                    0 <= rx,
            ;
        }
    }
}

/// Two number segments are ordered by the numbers they write: `1.5` is older than `1.7`,
/// `1.9` older than `1.10`, and `1.01` and `1.1` are equally new.
pub proof fn law_number_segments_compare_by_value(a: Seq<char>, b: Seq<char>)
    requires
        a.len() > 0 && all_decimal_digits(a),
        b.len() > 0 && all_decimal_digits(b),
    ensures
        segment_lt(a, b) <==> decimal_value(a) < decimal_value(b),
{
    lemma_significant(a);
    lemma_significant(b);
    let x = significant(a);
    let y = significant(b);
    lemma_decimal_bound(x);
    lemma_decimal_bound(y);
    if x.len() < y.len() {
        lemma_decimal_lead(y);
        lemma_pow10(x.len(), (y.len() - 1) as nat);
    } else if y.len() < x.len() {
        lemma_decimal_lead(x);
        lemma_pow10(y.len(), (x.len() - 1) as nat);
    } else {
        lemma_equal_length_digits(x, y);
    }
}

/// A number segment comes after any segment that is not a number: `1.0-beta` is older
/// than `1.0`.
pub proof fn law_numbers_after_other_segments(a: Seq<char>, b: Seq<char>)
    requires
        !(a.len() > 0 && all_decimal_digits(a)),
        b.len() > 0 && all_decimal_digits(b),
    ensures
        segment_lt(a, b),
        !segment_lt(b, a),
{
}

/// Versions are ordered by their first segment that differs: when the segments before
/// position `k` are the same and the `k`th segments are numbers, the one with the smaller
/// number is the older version.
pub proof fn law_version_lt_at_first_difference(a: Seq<char>, b: Seq<char>, k: int)
    requires
        0 <= k < split_on(a, '.').len(),
        k < split_on(b, '.').len(),
        forall|j: int| 0 <= j < k ==> split_on(a, '.')[j] == split_on(b, '.')[j],
        split_on(a, '.')[k].len() > 0 && all_decimal_digits(split_on(a, '.')[k]),
        split_on(b, '.')[k].len() > 0 && all_decimal_digits(split_on(b, '.')[k]),
        decimal_value(split_on(a, '.')[k]) < decimal_value(split_on(b, '.')[k]),
    ensures
        version_lt(a, b),
        !version_lt(b, a),
{
    lemma_segments_first_difference(split_on(a, '.'), split_on(b, '.'), k);
}

proof fn lemma_segments_first_difference(x: Seq<Seq<char>>, y: Seq<Seq<char>>, k: int)
    requires
        0 <= k < x.len(),
        k < y.len(),
        forall|j: int| 0 <= j < k ==> x[j] == y[j],
        x[k].len() > 0 && all_decimal_digits(x[k]),
        y[k].len() > 0 && all_decimal_digits(y[k]),
        decimal_value(x[k]) < decimal_value(y[k]),
    ensures
        segments_lt(x, y),
        !segments_lt(y, x),
    decreases k,
{
    if k == 0 {
        law_number_segments_compare_by_value(x[0], y[0]);
        law_number_segments_compare_by_value(y[0], x[0]);
    } else {
        assert(x[0] == y[0]);
        lemma_segment_order(x[0], x[0], x[0]);
        assert forall|j: int| 0 <= j < k - 1 implies x.drop_first()[j] == y.drop_first()[j] by {
            assert(x[j + 1] == y[j + 1]);
        }
        lemma_segments_first_difference(x.drop_first(), y.drop_first(), k - 1);
    }
}

proof fn lemma_join_with_front(x: Seq<char>, r: Seq<Seq<char>>, sep: Seq<char>)
    requires
        r.len() >= 1,
    ensures
        join_with(seq![x] + r, sep) == x + sep + join_with(r, sep),
    decreases r.len(),
{
    let l = seq![x] + r;
    assert(l.len() >= 2);
    assert(join_with(l, sep) == join_with(l.drop_last(), sep) + sep + l.last());
    if r.len() == 1 {
        assert(l.drop_last() =~= seq![x]);
        assert(l.last() == r[0]);
        assert(join_with(seq![x], sep) == x);
        assert(join_with(r, sep) == r[0]);
    } else {
        assert(join_with(r, sep) == join_with(r.drop_last(), sep) + sep + r.last());
        lemma_join_with_front(x, r.drop_last(), sep);
        assert(l.drop_last() =~= seq![x] + r.drop_last());
        assert(l.last() == r.last());
        assert(x + sep + join_with(r.drop_last(), sep) + sep + r.last() =~= x + sep + (join_with(
            r.drop_last(),
            sep,
        ) + sep + r.last()));
    }
}

/// Splitting at a char gives at least one piece, no piece holds the char, and joining the
/// pieces with it gives the text back.
pub proof fn law_split_on(s: Seq<char>, sep: char)
    ensures
        split_on(s, sep).len() >= 1,
        forall|i: int|
            0 <= i < split_on(s, sep).len() ==> !(#[trigger] split_on(s, sep)[i]).contains(sep),
        join_with(split_on(s, sep), seq![sep]) == s,
    decreases s.len(),
{
    let k = first_index_of(s, sep);
    lemma_first_index_of(s, sep);
    if k >= s.len() {
        assert(!s.contains(sep));
    } else {
        let head = s.subrange(0, k);
        let rest = s.subrange(k + 1, s.len() as int);
        law_split_on(rest, sep);
        let pieces = split_on(s, sep);
        assert(pieces == seq![head] + split_on(rest, sep));
        assert(!head.contains(sep)) by {
            if head.contains(sep) {
                let j = choose|j: int| 0 <= j < head.len() && head[j] == sep;
                assert(s[j] == sep);
            }
        }
        assert forall|i: int| 0 <= i < pieces.len() implies !(#[trigger] pieces[i]).contains(sep) by {
            if i > 0 {
                assert(pieces[i] == split_on(rest, sep)[i - 1]);
            }
        }
        lemma_join_with_front(head, split_on(rest, sep), seq![sep]);
        assert(head + seq![sep] + rest =~= s);
    }
}

proof fn lemma_chars_lt_after_common_prefix(
    p: Seq<char>,
    c: char,
    d: char,
    u: Seq<char>,
    w: Seq<char>,
)
    ensures
        (c as int) < (d as int) ==> chars_lt(p + seq![c] + u, p + seq![d] + w),
        chars_lt(p, p + seq![d] + w),
    decreases p.len(),
{
    let a = p + seq![c] + u;
    let b = p + seq![d] + w;
    if p.len() == 0 {
        assert(a[0] == c);
        assert(b[0] == d);
    } else {
        lemma_chars_lt_after_common_prefix(p.drop_first(), c, d, u, w);
        assert(a.drop_first() =~= p.drop_first() + seq![c] + u);
        assert(b.drop_first() =~= p.drop_first() + seq![d] + w);
        assert(a[0] == p[0] && b[0] == p[0]);
    }
}

/// Two segments that are not numbers are ordered char by char: after a common beginning,
/// the one whose next char has the smaller code is older, and a segment is older than any
/// longer one that begins with it.
pub proof fn law_text_segments_compare_char_by_char(
    p: Seq<char>,
    c: char,
    d: char,
    u: Seq<char>,
    w: Seq<char>,
)
    requires
        !all_decimal_digits(p + seq![c] + u),
        !all_decimal_digits(p + seq![d] + w),
        !(p.len() > 0 && all_decimal_digits(p)),
    ensures
        (c as int) < (d as int) ==> segment_lt(p + seq![c] + u, p + seq![d] + w),
        segment_lt(p, p + seq![d] + w),
{
    lemma_chars_lt_after_common_prefix(p, c, d, u, w);
}

} // verus!
