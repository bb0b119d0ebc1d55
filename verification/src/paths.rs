//! Output-path derivation: every step of a run writes to a path obtained by
//! inserting a `_<preset>_<transition>_<strength>` suffix into the run's base
//! image path, right before its first extension segment. Distinct step
//! coordinates always yield distinct paths, which is what makes resumption and
//! concurrent batches safe.

use vstd::prelude::*;

verus! {

/// The decimal digit character for `d` (meaningful for `0 <= d <= 9`).
pub open spec fn digit_char(d: int) -> char {
    if d == 0 {
        '0'
    } else if d == 1 {
        '1'
    } else if d == 2 {
        '2'
    } else if d == 3 {
        '3'
    } else if d == 4 {
        '4'
    } else if d == 5 {
        '5'
    } else if d == 6 {
        '6'
    } else if d == 7 {
        '7'
    } else if d == 8 {
        '8'
    } else {
        '9'
    }
}

/// Whether `c` is a decimal digit character.
pub open spec fn is_digit(c: char) -> bool {
    c == '0' || c == '1' || c == '2' || c == '3' || c == '4' || c == '5' || c == '6' || c == '7'
        || c == '8' || c == '9'
}

/// The usual decimal rendering of `n`, most significant digit first, no
/// leading zeros (except for `n == 0` itself).
pub open spec fn dec_digits(n: nat) -> Seq<char>
    decreases n,
{
    if n < 10 {
        seq![digit_char(n as int)]
    } else {
        dec_digits(n / 10).push(digit_char((n % 10) as int))
    }
}

/// A decimal rendering is nonempty and made of digit characters only.
pub proof fn lemma_dec_digits_shape(n: nat)
    ensures
        dec_digits(n).len() >= 1,
        forall|i: int| 0 <= i < dec_digits(n).len() ==> is_digit(#[trigger] dec_digits(n)[i]),
    decreases n,
{
    if n >= 10 {
        lemma_dec_digits_shape(n / 10);
    }
}

/// Distinct digits render as distinct characters.
proof fn lemma_digit_char_injective(x: int, y: int)
    requires
        0 <= x < 10,
        0 <= y < 10,
        digit_char(x) == digit_char(y),
    ensures
        x == y,
{
    if x != y {
        assert(digit_char(0) == '0' && digit_char(1) == '1' && digit_char(2) == '2'
            && digit_char(3) == '3' && digit_char(4) == '4' && digit_char(5) == '5' && digit_char(
            6,
        ) == '6' && digit_char(7) == '7' && digit_char(8) == '8' && digit_char(9) == '9');
    }
}

/// Two numbers with the same decimal rendering are equal.
pub proof fn lemma_dec_digits_injective(a: nat, b: nat)
    requires
        dec_digits(a) == dec_digits(b),
    ensures
        a == b,
    decreases a,
{
    if a < 10 && b < 10 {
        assert(dec_digits(a)[0] == digit_char(a as int));
        assert(dec_digits(b)[0] == digit_char(b as int));
        lemma_digit_char_injective(a as int, b as int);
    } else if a < 10 && b >= 10 {
        lemma_dec_digits_shape(b / 10);
        assert(dec_digits(b).len() >= 2);
    } else if a >= 10 && b < 10 {
        lemma_dec_digits_shape(a / 10);
        assert(dec_digits(a).len() >= 2);
    } else {
        assert(dec_digits(a).last() == digit_char((a % 10) as int));
        assert(dec_digits(b).last() == digit_char((b % 10) as int));
        lemma_digit_char_injective((a % 10) as int, (b % 10) as int);
        assert(a % 10 == b % 10);
        assert(dec_digits(a).drop_last() =~= dec_digits(a / 10));
        assert(dec_digits(b).drop_last() =~= dec_digits(b / 10));
        lemma_dec_digits_injective(a / 10, b / 10);
        assert(a == 10 * (a / 10) + a % 10);
        assert(b == 10 * (b / 10) + b % 10);
    }
}

/// The character index of the first `'.'` in `s`, or `s.len()` if none.
pub open spec fn first_dot(s: Seq<char>) -> int
    decreases s.len(),
{
    if s.len() == 0 {
        0
    } else if s[0] == '.' {
        0
    } else {
        1 + first_dot(s.skip(1))
    }
}

/// `first_dot` points at the first dot: no dot lies before it, and it is a
/// dot unless the whole string is dot-free.
pub proof fn lemma_first_dot(s: Seq<char>)
    ensures
        0 <= first_dot(s) <= s.len(),
        first_dot(s) < s.len() ==> s[first_dot(s)] == '.',
        forall|k: int| 0 <= k < first_dot(s) ==> s[k] != '.',
    decreases s.len(),
{
    if s.len() != 0 && s[0] != '.' {
        lemma_first_dot(s.skip(1));
        assert forall|k: int| 0 <= k < first_dot(s) implies s[k] != '.' by {
            if k > 0 {
                assert(s.skip(1)[k - 1] == s[k]);
            }
        }
        if first_dot(s) < s.len() {
            assert(s.skip(1)[first_dot(s) - 1] == s[first_dot(s)]);
        }
    }
}

/// Any index with no dot before it that sits on a dot (or at the end of a
/// dot-free string) is `first_dot`.
pub proof fn lemma_first_dot_unique(s: Seq<char>, i: int)
    requires
        0 <= i <= s.len(),
        i < s.len() ==> s[i] == '.',
        forall|k: int| 0 <= k < i ==> s[k] != '.',
    ensures
        first_dot(s) == i,
{
    lemma_first_dot(s);
    if first_dot(s) < i {
        assert(s[first_dot(s)] == '.');
    } else if i < first_dot(s) {
        assert(s[i] != '.');
    }
}

/// The character index of the first `'.'` of `s`, or its length if none.
fn find_first_dot(s: &str) -> (r: usize)
    ensures
        r as int == first_dot(s@),
{
    let n = s.unicode_len();
    let mut i: usize = 0;
    while i < n && s.get_char(i) != '.'
        invariant
            0 <= i <= n,
            n as int == s@.len(),
            forall|k: int| 0 <= k < i ==> s@[k] != '.',
        decreases n - i,
    {
        i = i + 1;
    }
    proof {
        lemma_first_dot_unique(s@, i as int);
    }
    i
}

/// Inserts `modifier` into `path` right before its first `'.'` (at the end if
/// `path` has no dot), keeping everything else unchanged.
pub fn path_modifier(path: String, modifier: &str) -> (r: String)
    ensures
        r@ == path@.subrange(0, first_dot(path@)) + modifier@ + path@.subrange(
            first_dot(path@),
            path@.len() as int,
        ),
{
    let s = path.as_str();
    let n = s.unicode_len();
    let i = find_first_dot(s);
    proof {
        lemma_first_dot(s@);
    }
    let prefix = s.substring_char(0, i);
    let rest = s.substring_char(i, n);
    let mut r = String::from_str(prefix);
    r.append(modifier);
    r.append(rest);
    r
}

/// The one-character string for `d` (meaningful for `0 <= d <= 9`).
fn digit_str(d: u64) -> (r: &'static str)
    requires
        d < 10,
    ensures
        r@ == seq![digit_char(d as int)],
{
    let r: &'static str = if d == 0 {
        "0"
    } else if d == 1 {
        "1"
    } else if d == 2 {
        "2"
    } else if d == 3 {
        "3"
    } else if d == 4 {
        "4"
    } else if d == 5 {
        "5"
    } else if d == 6 {
        "6"
    } else if d == 7 {
        "7"
    } else if d == 8 {
        "8"
    } else {
        "9"
    };
    proof {
        reveal_strlit("0");
        reveal_strlit("1");
        reveal_strlit("2");
        reveal_strlit("3");
        reveal_strlit("4");
        reveal_strlit("5");
        reveal_strlit("6");
        reveal_strlit("7");
        reveal_strlit("8");
        reveal_strlit("9");
        assert(r@ =~= seq![digit_char(d as int)]);
    }
    r
}

/// Renders `n` in decimal.
fn u64_dec(n: u64) -> (r: String)
    ensures
        r@ == dec_digits(n as nat),
    decreases n,
{
    if n < 10 {
        String::from_str(digit_str(n))
    } else {
        proof {
            assert(n / 10 < n) by (nonlinear_arith)
                requires
                    n >= 10,
            ;
        }
        let mut s = u64_dec(n / 10);
        s.append(digit_str(n % 10));
        proof {
            assert(s@ =~= dec_digits(n as nat));
        }
        s
    }
}

/// The coordinate suffix `_<p>_<t>_<s>` inserted into output paths.
pub open spec fn suffix_spec(p: nat, t: nat, s: nat) -> Seq<char> {
    seq!['_'] + dec_digits(p) + seq!['_'] + dec_digits(t) + seq!['_'] + dec_digits(s)
}

/// The output path for step coordinates `(p, t, s)` over base path `base`.
pub open spec fn path_spec(base: Seq<char>, p: nat, t: nat, s: nat) -> Seq<char> {
    base.subrange(0, first_dot(base)) + suffix_spec(p, t, s) + base.subrange(
        first_dot(base),
        base.len() as int,
    )
}

/// Builds the coordinate suffix `_<p>_<t>_<s>`.
fn step_suffix(p: usize, t: usize, s: usize) -> (r: String)
    ensures
        r@ == suffix_spec(p as nat, t as nat, s as nat),
{
    proof {
        reveal_strlit("_");
    }
    let mut r = String::from_str("_");
    r.append(u64_dec(p as u64).as_str());
    r.append("_");
    r.append(u64_dec(t as u64).as_str());
    r.append("_");
    r.append(u64_dec(s as u64).as_str());
    proof {
        assert(r@ =~= suffix_spec(p as nat, t as nat, s as nat));
    }
    r
}

/// The output path for the step at coordinates `(p, t, s)` of a run whose
/// initial image is at `base`.
pub fn step_output_path(base: &String, p: usize, t: usize, s: usize) -> (r: String)
    ensures
        r@ == path_spec(base@, p as nat, t as nat, s as nat),
{
    let suffix = step_suffix(p, t, s);
    path_modifier(base.clone(), suffix.as_str())
}

/// Splitting at a separator is unambiguous when the part before it is free of
/// the separator: equal concatenations have equal parts.
proof fn lemma_sep_split(u1: Seq<char>, v1: Seq<char>, u2: Seq<char>, v2: Seq<char>, sep: char)
    requires
        u1 + seq![sep] + v1 == u2 + seq![sep] + v2,
        forall|k: int| 0 <= k < u1.len() ==> u1[k] != sep,
        forall|k: int| 0 <= k < u2.len() ==> u2[k] != sep,
    ensures
        u1 == u2,
        v1 == v2,
{
    let w = u1 + seq![sep] + v1;
    let w2 = u2 + seq![sep] + v2;
    assert(w.len() == u1.len() + 1 + v1.len());
    assert(w2.len() == u2.len() + 1 + v2.len());
    assert(w[u1.len() as int] == sep);
    assert(w[u2.len() as int] == sep);
    if u1.len() < u2.len() {
        assert(w[u1.len() as int] == u2[u1.len() as int]);
        assert(false);
    }
    if u2.len() < u1.len() {
        assert(w[u2.len() as int] == u1[u2.len() as int]);
        assert(false);
    }
    assert(v1.len() == v2.len());
    assert forall|k: int| 0 <= k < u1.len() implies u1[k] == u2[k] by {
        assert(w[k] == u1[k]);
        assert(w2[k] == u2[k]);
    }
    assert(u1 =~= u2);
    assert forall|k: int| 0 <= k < v1.len() implies v1[k] == v2[k] by {
        assert(w[u1.len() + 1 + k] == v1[k]);
        assert(w2[u2.len() + 1 + k] == v2[k]);
    }
    assert(v1 =~= v2);
}

/// Two step coordinates with the same suffix are the same coordinates.
proof fn lemma_suffix_injective(p: nat, t: nat, s: nat, p2: nat, t2: nat, s2: nat)
    requires
        suffix_spec(p, t, s) == suffix_spec(p2, t2, s2),
    ensures
        p == p2,
        t == t2,
        s == s2,
{
    lemma_dec_digits_shape(p);
    lemma_dec_digits_shape(t);
    lemma_dec_digits_shape(s);
    lemma_dec_digits_shape(p2);
    lemma_dec_digits_shape(t2);
    lemma_dec_digits_shape(s2);
    let r1 = dec_digits(t) + seq!['_'] + dec_digits(s);
    let r2 = dec_digits(t2) + seq!['_'] + dec_digits(s2);
    assert(suffix_spec(p, t, s).skip(1) =~= dec_digits(p) + seq!['_'] + r1);
    assert(suffix_spec(p2, t2, s2).skip(1) =~= dec_digits(p2) + seq!['_'] + r2);
    lemma_sep_split(dec_digits(p), r1, dec_digits(p2), r2, '_');
    lemma_dec_digits_injective(p, p2);
    lemma_sep_split(dec_digits(t), dec_digits(s), dec_digits(t2), dec_digits(s2), '_');
    lemma_dec_digits_injective(t, t2);
    lemma_dec_digits_injective(s, s2);
}

/// Output paths are collision-free: within one run (one base path), two steps
/// can share an output path only if they are the same step. Contrapositively,
/// distinct coordinate triples always write to distinct paths.
pub proof fn lemma_output_path_injective(
    base: Seq<char>,
    p: nat,
    t: nat,
    s: nat,
    p2: nat,
    t2: nat,
    s2: nat,
)
    requires
        path_spec(base, p, t, s) == path_spec(base, p2, t2, s2),
    ensures
        p == p2,
        t == t2,
        s == s2,
{
    let a = base.subrange(0, first_dot(base));
    let b = base.subrange(first_dot(base), base.len() as int);
    let x = suffix_spec(p, t, s);
    let y = suffix_spec(p2, t2, s2);
    assert((a + x + b).len() == (a + y + b).len());
    assert(x.len() == y.len());
    assert forall|k: int| 0 <= k < x.len() implies x[k] == y[k] by {
        assert((a + x + b)[a.len() + k] == x[k]);
        assert((a + y + b)[a.len() + k] == y[k]);
    }
    assert(x =~= y);
    lemma_suffix_injective(p, t, s, p2, t2, s2);
}

} // verus!
