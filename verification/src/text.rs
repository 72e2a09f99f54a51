//! Character-level helpers shared by the sanitizers: whitespace trimming,
//! ASCII lower-casing, and searching for characters and substrings.

use vstd::prelude::*;
use vstd::string::StrSliceExecFns;
use vstd::string::StringExecFns;

verus! {

/// A whitespace character, following Unicode's White_Space property.
pub open spec fn is_space(c: char) -> bool {
    ||| c == ' '
    ||| c == '\t'
    ||| c == '\n'
    ||| c == '\r'
    ||| c == '\u{b}'
    ||| c == '\u{c}'
    ||| c == '\u{85}'
    ||| c == '\u{a0}'
    ||| c == '\u{1680}'
    ||| ('\u{2000}' as u32 <= c as u32 && c as u32 <= '\u{200a}' as u32)
    ||| c == '\u{2028}'
    ||| c == '\u{2029}'
    ||| c == '\u{202f}'
    ||| c == '\u{205f}'
    ||| c == '\u{3000}'
}

/// Whether `c` is a whitespace character.
pub fn is_space_char(c: char) -> (r: bool)
    ensures
        r == is_space(c),
{
    let u = c as u32;
    u == 0x20 || u == 0x9 || u == 0xa || u == 0xd || u == 0xb || u == 0xc || u == 0x85
        || u == 0xa0 || u == 0x1680 || (0x2000 <= u && u <= 0x200a) || u == 0x2028 || u == 0x2029
        || u == 0x202f || u == 0x205f || u == 0x3000
}

/// The string with leading and trailing whitespace removed.
pub open spec fn trim_spec(s: Seq<char>) -> Seq<char>
    decreases s.len(),
{
    if s.len() > 0 && is_space(s[0]) {
        trim_spec(s.drop_first())
    } else if s.len() > 0 && is_space(s[s.len() - 1]) {
        trim_spec(s.drop_last())
    } else {
        s
    }
}

/// The trimmed string is the subrange between the first and last
/// non-whitespace characters.
pub proof fn lemma_trim_subrange(s: Seq<char>, a: int, b: int)
    requires
        0 <= a <= b <= s.len(),
        forall|k: int| 0 <= k < a ==> is_space(s[k]),
        forall|k: int| b <= k < s.len() ==> is_space(s[k]),
        a < b ==> !is_space(s[a]),
        a < b ==> !is_space(s[b - 1]),
    ensures
        trim_spec(s) == s.subrange(a, b),
    decreases s.len(),
{
    if s.len() == 0 {
        assert(trim_spec(s) =~= s.subrange(a, b));
    } else if is_space(s[0]) {
        let t = s.drop_first();
        assert(t =~= s.subrange(1, s.len() as int));
        if a > 0 {
            lemma_trim_subrange(t, a - 1, b - 1);
            assert(t.subrange(a - 1, b - 1) =~= s.subrange(a, b));
        } else {
            // a == 0 and s[0] is whitespace, so a == b and every character
            // of s is whitespace.
            assert(a == b);
            lemma_trim_subrange(t, 0, 0);
            assert(t.subrange(0, 0) =~= s.subrange(a, b));
        }
    } else if is_space(s[s.len() - 1]) {
        // The first character is not whitespace, so a == 0 and a < b and
        // b < s.len().
        assert(a == 0);
        assert(a < b);
        let t = s.drop_last();
        assert(t =~= s.subrange(0, s.len() - 1));
        assert(b < s.len());
        lemma_trim_subrange(t, a, b);
        assert(t.subrange(a, b) =~= s.subrange(a, b));
    } else {
        assert(a == 0);
        assert(b == s.len());
        assert(trim_spec(s) == s);
        assert(s.subrange(0, s.len() as int) =~= s);
    }
}

/// Trim leading and trailing whitespace from a string.
pub fn trim_str(s: &str) -> (r: String)
    ensures
        r@ == trim_spec(s@),
{
    let n = s.unicode_len();
    let mut a: usize = 0;
    while a < n && is_space_char(s.get_char(a))
        invariant
            n == s@.len(),
            0 <= a <= n,
            forall|k: int| 0 <= k < a ==> is_space(s@[k]),
        decreases n - a,
    {
        a = a + 1;
    }
    let mut b: usize = n;
    while b > a && is_space_char(s.get_char(b - 1))
        invariant
            n == s@.len(),
            a <= b <= n,
            forall|k: int| 0 <= k < a ==> is_space(s@[k]),
            forall|k: int| b <= k < n ==> is_space(s@[k]),
            a < n ==> !is_space(s@[a as int]),
        decreases b,
    {
        b = b - 1;
    }
    proof {
        lemma_trim_subrange(s@, a as int, b as int);
    }
    let sub = s.substring_char(a, b);
    String::from_str(sub)
}

/// A trimmed string is empty or keeps non-whitespace characters at both
/// ends.
pub proof fn lemma_trim_ends(s: Seq<char>)
    ensures
        trim_spec(s).len() > 0 ==> !is_space(trim_spec(s)[0]) && !is_space(
            trim_spec(s)[trim_spec(s).len() - 1],
        ),
    decreases s.len(),
{
    if s.len() > 0 && is_space(s[0]) {
        lemma_trim_ends(s.drop_first());
    } else if s.len() > 0 && is_space(s[s.len() - 1]) {
        lemma_trim_ends(s.drop_last());
    }
}

/// Trimming is idempotent: a trimmed string trims to itself.
pub proof fn lemma_trim_idempotent(s: Seq<char>)
    ensures
        trim_spec(trim_spec(s)) == trim_spec(s),
{
    let t = trim_spec(s);
    lemma_trim_ends(s);
    if t.len() == 0 {
    } else {
        assert(trim_spec(t) == t);
    }
}

/// The ASCII lower-case image of a character: `A`..`Z` map to `a`..`z`,
/// everything else is unchanged.
pub open spec fn lower_char(c: char) -> char {
    if 'A' as u32 <= c as u32 && c as u32 <= 'Z' as u32 {
        ((c as u8) + 32) as char
    } else {
        c
    }
}

/// The string mapped through `lower_char`.
pub open spec fn lower_seq(s: Seq<char>) -> Seq<char> {
    s.map_values(|c: char| lower_char(c))
}

/// Lower-casing does not create or remove whitespace.
pub proof fn lemma_lower_space(c: char)
    ensures
        is_space(lower_char(c)) == is_space(c),
{
    if 'A' as u32 <= c as u32 && c as u32 <= 'Z' as u32 {
        assert(c as u8 as u32 == c as u32);
        assert((((c as u8) + 32) as char) as u32 == c as u32 + 32);
    }
}

/// Lower-casing a character twice gives the same as once.
pub proof fn lemma_lower_char_fixed(c: char)
    ensures
        lower_char(lower_char(c)) == lower_char(c),
{
    if 'A' as u32 <= c as u32 && c as u32 <= 'Z' as u32 {
        assert(c as u8 as u32 == c as u32);
        assert((((c as u8) + 32) as char) as u32 == c as u32 + 32);
    }
}

/// Lower-casing is idempotent.
pub proof fn lemma_lower_idempotent(s: Seq<char>)
    ensures
        lower_seq(lower_seq(s)) == lower_seq(s),
{
    assert forall|i: int| 0 <= i < s.len() implies lower_seq(lower_seq(s))[i] == lower_seq(s)[i] by {
        lemma_lower_char_fixed(s[i]);
    }
    assert(lower_seq(lower_seq(s)) =~= lower_seq(s));
}

/// A lower-cased trimmed string trims to itself.
pub proof fn lemma_trim_lower_trimmed(raw: Seq<char>)
    ensures
        trim_spec(lower_seq(trim_spec(raw))) == lower_seq(trim_spec(raw)),
{
    let t = trim_spec(raw);
    let lt = lower_seq(t);
    lemma_trim_ends(raw);
    if t.len() == 0 {
        assert(lt.len() == 0);
    } else {
        lemma_lower_space(t[0]);
        lemma_lower_space(t[t.len() - 1]);
        assert(!is_space(lt[0]));
        assert(!is_space(lt[lt.len() - 1]));
        lemma_trim_subrange(lt, 0, lt.len() as int);
        assert(lt.subrange(0, lt.len() as int) =~= lt);
    }
}

/// The characters of `s`, ASCII lower-cased, as a vector.
pub fn lower_chars_of_str(s: &str) -> (v: Vec<char>)
    ensures
        v@ == lower_seq(s@),
{
    let n = s.unicode_len();
    let mut v: Vec<char> = Vec::new();
    let mut i: usize = 0;
    while i < n
        invariant
            n == s@.len(),
            0 <= i <= n,
            v@ =~= lower_seq(s@).subrange(0, i as int),
        decreases n - i,
    {
        let c = s.get_char(i);
        let u = c as u32;
        let lc: char = if 0x41 <= u && u <= 0x5a {
            ((c as u8) + 32) as char
        } else {
            c
        };
        assert(lc == lower_char(s@[i as int]));
        v.push(lc);
        assert(v@ =~= lower_seq(s@).subrange(0, i + 1 as int));
        i = i + 1;
    }
    proof {
        assert(v@ =~= lower_seq(s@));
    }
    v
}

/// The characters of `s` as a vector.
pub fn chars_of_str(s: &str) -> (v: Vec<char>)
    ensures
        v@ == s@,
{
    let n = s.unicode_len();
    let mut v: Vec<char> = Vec::new();
    let mut i: usize = 0;
    while i < n
        invariant
            n == s@.len(),
            0 <= i <= n,
            v@ =~= s@.subrange(0, i as int),
        decreases n - i,
    {
        v.push(s.get_char(i));
        assert(v@ =~= s@.subrange(0, i + 1 as int));
        i = i + 1;
    }
    proof {
        assert(v@ =~= s@);
    }
    v
}

/// A string made of the characters of `v`.
pub fn string_of_chars(v: &Vec<char>) -> (r: String)
    ensures
        r@ == v@,
{
    let mut r = String::new();
    let mut i: usize = 0;
    while i < v.len()
        invariant
            0 <= i <= v@.len(),
            r@ =~= v@.subrange(0, i as int),
        decreases v@.len() - i,
    {
        push_char(&mut r, v[i]);
        assert(r@ =~= v@.subrange(0, i + 1 as int));
        i = i + 1;
    }
    proof {
        assert(r@ =~= v@);
    }
    r
}

/// Relies on String::push: appends one character at the end of the string.
#[verifier::external_body]
fn push_char(s: &mut String, c: char)
    ensures
        final(s)@ == old(s)@.push(c),
{
    s.push(c);
}

/// Whether `p` is a prefix of `s`.
pub open spec fn has_prefix(s: Seq<char>, p: Seq<char>) -> bool {
    p.len() <= s.len() && s.subrange(0, p.len() as int) == p
}

/// Whether the characters `v[from..]` start with the characters of `p`.
pub fn starts_with_at(v: &Vec<char>, p: &Vec<char>, from: usize) -> (r: bool)
    requires
        from <= v@.len(),
    ensures
        r == has_prefix(v@.subrange(from as int, v@.len() as int), p@),
{
    let n = v.len();
    let m = p.len();
    if m > n - from {
        assert(!has_prefix(v@.subrange(from as int, n as int), p@));
        return false;
    }
    let mut i: usize = 0;
    while i < m
        invariant
            m == p@.len(),
            n == v@.len(),
            from + m <= n,
            0 <= i <= m,
            forall|k: int| 0 <= k < i ==> v@[from + k] == p@[k],
        decreases m - i,
    {
        if v[from + i] != p[i] {
            assert(v@.subrange(from as int, n as int)[i as int] != p@[i as int]);
            assert(!has_prefix(v@.subrange(from as int, n as int), p@));
            return false;
        }
        i = i + 1;
    }
    assert(v@.subrange(from as int, n as int).subrange(0, m as int) =~= p@);
    true
}

/// Whether the characters of `v` start with the characters of `p`.
pub fn has_prefix_chars(v: &Vec<char>, p: &Vec<char>) -> (r: bool)
    ensures
        r == has_prefix(v@, p@),
{
    let r = starts_with_at(v, p, 0);
    proof {
        assert(v@.subrange(0, v@.len() as int) =~= v@);
    }
    r
}

/// Whether the characters of `v` end with the characters of `p`.
pub fn ends_with_chars(v: &Vec<char>, p: &Vec<char>) -> (r: bool)
    ensures
        r == (p@.len() <= v@.len() && v@.subrange(v@.len() - p@.len(), v@.len() as int) == p@),
{
    if p.len() > v.len() {
        return false;
    }
    let from = v.len() - p.len();
    let r = starts_with_at(v, p, from);
    proof {
        let tail = v@.subrange(from as int, v@.len() as int);
        assert(tail.subrange(0, p@.len() as int) =~= tail);
    }
    r
}

/// Whether the two character vectors hold the same characters.
pub fn chars_eq(a: &Vec<char>, b: &Vec<char>) -> (r: bool)
    ensures
        r == (a@ == b@),
{
    if a.len() != b.len() {
        return false;
    }
    let mut i: usize = 0;
    while i < a.len()
        invariant
            a@.len() == b@.len(),
            0 <= i <= a@.len(),
            forall|k: int| 0 <= k < i ==> a@[k] == b@[k],
        decreases a@.len() - i,
    {
        if a[i] != b[i] {
            return false;
        }
        i = i + 1;
    }
    proof {
        assert(a@ =~= b@);
    }
    true
}

/// Whether the characters of `v` equal the characters of the string `s`.
pub fn chars_eq_str(v: &Vec<char>, s: &str) -> (r: bool)
    ensures
        r == (v@ == s@),
{
    let w = chars_of_str(s);
    chars_eq(v, &w)
}

/// Whether `p` occurs in `s` starting at position `i`.
pub open spec fn occurs_at(s: Seq<char>, p: Seq<char>, i: int) -> bool {
    0 <= i && i + p.len() <= s.len() && s.subrange(i, i + p.len()) == p
}

/// Whether `p` occurs somewhere in `s`.
pub open spec fn contains_seq(s: Seq<char>, p: Seq<char>) -> bool {
    exists|i: int| occurs_at(s, p, i)
}

/// Whether the characters of `p` occur as a contiguous substring of `v`.
pub fn contains_chars(v: &Vec<char>, p: &Vec<char>) -> (r: bool)
    ensures
        r == contains_seq(v@, p@),
{
    let n = v.len();
    let m = p.len();
    if m > n {
        assert(forall|i: int| !#[trigger] occurs_at(v@, p@, i));
        return false;
    }
    if m == 0 {
        proof {
            assert(v@.subrange(0, 0) =~= p@);
            assert(occurs_at(v@, p@, 0));
        }
        return true;
    }
    let mut i: usize = 0;
    while i <= n - m
        invariant
            n == v@.len(),
            m == p@.len(),
            1 <= m <= n,
            0 <= i <= n,
            forall|k: int| 0 <= k < i ==> !occurs_at(v@, p@, k),
        decreases n - i,
    {
        if starts_with_at(v, p, i) {
            proof {
                let sub = v@.subrange(i as int, n as int);
                assert(sub.subrange(0, m as int) =~= v@.subrange(i as int, i + m as int));
                assert(occurs_at(v@, p@, i as int));
            }
            return true;
        }
        proof {
            let sub = v@.subrange(i as int, n as int);
            if occurs_at(v@, p@, i as int) {
                assert(sub.subrange(0, m as int) =~= v@.subrange(i as int, i + m as int));
                assert(has_prefix(sub, p@));
            }
        }
        i = i + 1;
    }
    proof {
        if contains_seq(v@, p@) {
            let k = choose|k: int| occurs_at(v@, p@, k);
            assert(k <= n - m);
            assert(!occurs_at(v@, p@, k));
        }
    }
    false
}

/// The separator between a browser name and its profile suffix, and the
/// separator before a port in a hostname.
pub open spec fn colon_pred() -> spec_fn(char) -> bool {
    |c: char| c == ':'
}

/// The position of the first character in `s` at or after `from` that
/// satisfies `p`, or `s.len()` if there is none.
pub open spec fn first_where(s: Seq<char>, from: int, p: spec_fn(char) -> bool) -> int
    decreases s.len() - from,
{
    if from < 0 || from >= s.len() {
        s.len() as int
    } else if p(s[from]) {
        from
    } else {
        first_where(s, from + 1, p)
    }
}

/// `first_where` is the unique position `i` such that no character in
/// `[from, i)` satisfies `p` and, if `i` is in range, `s[i]` satisfies it.
pub proof fn lemma_first_where(s: Seq<char>, from: int, p: spec_fn(char) -> bool, i: int)
    requires
        0 <= from <= i <= s.len(),
        forall|k: int| from <= k < i ==> !p(s[k]),
        i < s.len() ==> p(s[i]),
    ensures
        first_where(s, from, p) == i,
    decreases s.len() - from,
{
    if from >= s.len() {
    } else if p(s[from]) {
        assert(i == from);
    } else {
        lemma_first_where(s, from + 1, p, i);
    }
}

/// The characters `v[a..b]` as a new vector.
pub fn copy_range(v: &Vec<char>, a: usize, b: usize) -> (r: Vec<char>)
    requires
        a <= b <= v@.len(),
    ensures
        r@ == v@.subrange(a as int, b as int),
{
    let mut r: Vec<char> = Vec::new();
    let mut i: usize = a;
    while i < b
        invariant
            a <= i <= b <= v@.len(),
            r@ =~= v@.subrange(a as int, i as int),
        decreases b - i,
    {
        r.push(v[i]);
        assert(r@ =~= v@.subrange(a as int, i + 1 as int));
        i = i + 1;
    }
    proof {
        assert(r@ =~= v@.subrange(a as int, b as int));
    }
    r
}

} // verus!
