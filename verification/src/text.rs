//! Character-level string operations with exact specifications.

use vstd::prelude::*;

verus! {

broadcast use vstd::string::group_string_axioms;

/// The characters of a string, in order.
pub fn chars_of(s: &str) -> (v: Vec<char>)
    ensures
        v@ == s@,
{
    let mut v: Vec<char> = Vec::new();
    for c in it: s.chars()
        invariant
            v@ == it.seq().take(it.index() as int),
            it.seq() == s@,
    {
        v.push(c);
    }
    v
}


/// Strict lexicographic order on character sequences, comparing characters by
/// code point: the order `str` and `String` have in std (byte-wise on UTF-8,
/// which orders code points the same way).
pub open spec fn chars_lt(a: Seq<char>, b: Seq<char>) -> bool
    decreases a.len(),
{
    if a.len() == 0 {
        b.len() > 0
    } else if b.len() == 0 {
        false
    } else if a[0] != b[0] {
        (a[0] as u32) < (b[0] as u32)
    } else {
        chars_lt(a.drop_first(), b.drop_first())
    }
}

/// `chars_lt` is the lexicographic order: a proper prefix comes first, and
/// otherwise the first differing character decides, by code point.
pub proof fn law_chars_lt_is_lexicographic(a: Seq<char>, b: Seq<char>, k: int)
    ensures
        (a.len() < b.len() && b.take(a.len() as int) == a) ==> chars_lt(a, b),
        (0 <= k < a.len() && k < b.len() && a.take(k) == b.take(k) && (a[k] as u32) < (
        b[k] as u32)) ==> chars_lt(a, b),
        (0 <= k < a.len() && k < b.len() && a.take(k) == b.take(k) && (b[k] as u32) < (
        a[k] as u32)) ==> !chars_lt(a, b),
    decreases a.len(),
{
    if a.len() > 0 && b.len() > 0 {
        if a.len() < b.len() && b.take(a.len() as int) == a {
            assert(a[0] == b.take(a.len() as int)[0]);
            assert(b.drop_first().take(a.drop_first().len() as int) =~= a.drop_first());
        }
        if 0 < k < a.len() && k < b.len() && a.take(k) == b.take(k) {
            assert(a[0] == a.take(k)[0]);
            assert(b[0] == b.take(k)[0]);
            assert(a.drop_first().take(k - 1) =~= b.drop_first().take(k - 1)) by {
                assert forall|j: int| 0 <= j < k - 1 implies a.drop_first()[j] == b.drop_first()[j] by {
                    assert(a.take(k)[j + 1] == b.take(k)[j + 1]);
                }
            }
        }
        law_chars_lt_is_lexicographic(a.drop_first(), b.drop_first(), k - 1);
    }
}

pub proof fn lemma_chars_lt_irreflexive(a: Seq<char>)
    ensures
        !chars_lt(a, a),
    decreases a.len(),
{
    if a.len() > 0 {
        lemma_chars_lt_irreflexive(a.drop_first());
    }
}

pub proof fn lemma_chars_lt_transitive(a: Seq<char>, b: Seq<char>, c: Seq<char>)
    requires
        chars_lt(a, b),
        chars_lt(b, c),
    ensures
        chars_lt(a, c),
    decreases a.len(),
{
    if a.len() > 0 && b.len() > 0 && c.len() > 0 {
        if a[0] == b[0] && b[0] == c[0] {
            lemma_chars_lt_transitive(a.drop_first(), b.drop_first(), c.drop_first());
        }
    }
}

pub proof fn lemma_chars_lt_total(a: Seq<char>, b: Seq<char>)
    ensures
        a == b || chars_lt(a, b) || chars_lt(b, a),
    decreases a.len(),
{
    if a.len() > 0 && b.len() > 0 {
        if a[0] == b[0] {
            lemma_chars_lt_total(a.drop_first(), b.drop_first());
            if a.drop_first() == b.drop_first() {
                assert(a == seq![a[0]] + a.drop_first());
                assert(b == seq![b[0]] + b.drop_first());
            }
        } else {
            vstd::utf8::char_u32_cast(a[0], a[0] as u32);
            vstd::utf8::char_u32_cast(b[0], b[0] as u32);
            assert((a[0] as u32) != (b[0] as u32));
        }
    } else if a.len() == 0 && b.len() == 0 {
        assert(a =~= b);
    }
}

pub proof fn lemma_chars_lt_asymmetric(a: Seq<char>, b: Seq<char>)
    requires
        chars_lt(a, b),
    ensures
        !chars_lt(b, a),
{
    if chars_lt(b, a) {
        lemma_chars_lt_transitive(a, b, a);
        lemma_chars_lt_irreflexive(a);
    }
}

proof fn lemma_chars_lt_skip(a: Seq<char>, b: Seq<char>, i: int)
    requires
        0 <= i <= a.len(),
        i <= b.len(),
        a.take(i) == b.take(i),
    ensures
        chars_lt(a, b) == chars_lt(a.skip(i), b.skip(i)),
    decreases i,
{
    if i > 0 {
        assert(a[0] == a.take(i)[0]);
        assert(b[0] == b.take(i)[0]);
        assert(a.drop_first().take(i - 1) =~= a.take(i).drop_first());
        assert(b.drop_first().take(i - 1) =~= b.take(i).drop_first());
        lemma_chars_lt_skip(a.drop_first(), b.drop_first(), i - 1);
        assert(a.drop_first().skip(i - 1) =~= a.skip(i));
        assert(b.drop_first().skip(i - 1) =~= b.skip(i));
    } else {
        assert(a.skip(0) =~= a);
        assert(b.skip(0) =~= b);
    }
}

/// Three-way comparison of two character sequences: negative, zero or
/// positive as `a` is before, equal to, or after `b`.
pub fn compare_chars(a: &Vec<char>, b: &Vec<char>) -> (r: i8)
    ensures
        (r < 0) == chars_lt(a@, b@),
        (r == 0) == (a@ == b@),
        (r > 0) == chars_lt(b@, a@),
{
    let mut i: usize = 0;
    while i < a.len() && i < b.len() && a[i] == b[i]
        invariant
            i <= a.len(),
            i <= b.len(),
            a@.take(i as int) == b@.take(i as int),
        decreases a.len() - i,
    {
        assert(a@.take(i + 1) =~= a@.take(i as int).push(a@[i as int]));
        assert(b@.take(i + 1) =~= b@.take(i as int).push(b@[i as int]));
        i += 1;
    }
    proof {
        lemma_chars_lt_skip(a@, b@, i as int);
        lemma_chars_lt_skip(b@, a@, i as int);
    }
    if i == a.len() && i == b.len() {
        assert(a@ =~= a@.take(i as int));
        assert(b@ =~= b@.take(i as int));
        proof { lemma_chars_lt_irreflexive(a@); }
        0
    } else if i == a.len() {
        assert(a@.skip(i as int).len() == 0);
        assert(a@ != b@);
        -1
    } else if i == b.len() {
        assert(b@.skip(i as int).len() == 0);
        assert(a@ != b@);
        1
    } else {
        assert(a@.skip(i as int)[0] == a@[i as int]);
        assert(b@.skip(i as int)[0] == b@[i as int]);
        assert(a@[i as int] != b@[i as int]);
        assert(a@ != b@);
        let x = a[i];
        let y = b[i];
        let xu = x as u32;
        let yu = y as u32;
        proof {
            vstd::utf8::char_u32_cast(x, xu);
            vstd::utf8::char_u32_cast(y, yu);
        }
        assert(xu != yu);
        assert(chars_lt(a@.skip(i as int), b@.skip(i as int)) == (xu < yu));
        assert(chars_lt(b@.skip(i as int), a@.skip(i as int)) == (yu < xu));
        if xu < yu {
            -1
        } else {
            1
        }
    }
}


/// `p` occurs in `s` starting at position `i`.
pub open spec fn occurs_at(s: Seq<char>, p: Seq<char>, i: int) -> bool {
    0 <= i && i + p.len() <= s.len() && s.subrange(i, i + p.len()) == p
}

/// `p` occurs somewhere in `s` (the empty sequence occurs in every sequence).
pub open spec fn chars_contain(s: Seq<char>, p: Seq<char>) -> bool {
    exists|i: int| occurs_at(s, p, i)
}

/// `p` occurs in `s` exactly when `s` is something, then `p`, then something.
pub proof fn law_contain_is_infix(s: Seq<char>, p: Seq<char>)
    ensures
        chars_contain(s, p) <==> exists|a: Seq<char>, b: Seq<char>| #[trigger] (a + p + b) == s,
{
    if chars_contain(s, p) {
        let i = choose|i: int| occurs_at(s, p, i);
        let a = s.take(i);
        let b = s.skip(i + p.len());
        assert(a + p + b =~= s);
    }
    if exists|a: Seq<char>, b: Seq<char>| #[trigger] (a + p + b) == s {
        let (a, b) = choose|a: Seq<char>, b: Seq<char>| #[trigger] (a + p + b) == s;
        assert(s.subrange(a.len() as int, a.len() + p.len() as int) =~= p);
        assert(occurs_at(s, p, a.len() as int));
    }
}

/// Whether `p` occurs in `s` at position `i`.
pub fn occurs_at_exec(s: &Vec<char>, p: &Vec<char>, i: usize) -> (r: bool)
    ensures
        r == occurs_at(s@, p@, i as int),
{
    if i > s.len() || p.len() > s.len() - i {
        return false;
    }
    let mut k: usize = 0;
    while k < p.len()
        invariant
            k <= p.len(),
            i + p.len() <= s.len(),
            forall|j: int| 0 <= j < k ==> s@[i + j] == p@[j],
        decreases p.len() - k,
    {
        if s[i + k] != p[k] {
            assert(s@.subrange(i as int, i + p.len())[k as int] != p@[k as int]);
            return false;
        }
        k += 1;
    }
    assert(s@.subrange(i as int, i + p.len()) =~= p@);
    true
}

/// Whether `p` occurs in `s`.
pub fn contains_chars(s: &Vec<char>, p: &Vec<char>) -> (r: bool)
    ensures
        r == chars_contain(s@, p@),
{
    if p.len() > s.len() {
        return false;
    }
    let last = s.len() - p.len();
    let mut i: usize = 0;
    loop
        invariant
            last == s.len() - p.len(),
            i <= last,
            forall|j: int| 0 <= j < i ==> !occurs_at(s@, p@, j),
        decreases last - i,
    {
        if occurs_at_exec(s, p, i) {
            return true;
        }
        if i == last {
            return false;
        }
        i += 1;
    }
}

/// Whether the string `s` contains the string `p`, as `str::contains` does.
pub fn str_contains(s: &str, p: &str) -> (r: bool)
    ensures
        r == chars_contain(s@, p@),
{
    let sv = chars_of(s);
    let pv = chars_of(p);
    contains_chars(&sv, &pv)
}

/// The position just after the last `/` in `p`, or 0 if there is none.
pub open spec fn after_last_slash(p: Seq<char>) -> int
    decreases p.len(),
{
    if p.len() == 0 {
        0
    } else if p.last() == '/' {
        p.len() as int
    } else {
        after_last_slash(p.drop_last())
    }
}

pub proof fn lemma_after_last_slash(p: Seq<char>)
    ensures
        0 <= after_last_slash(p) <= p.len(),
        after_last_slash(p) > 0 ==> p[after_last_slash(p) - 1] == '/',
        forall|j: int| after_last_slash(p) <= j < p.len() ==> p[j] != '/',
    decreases p.len(),
{
    if p.len() > 0 && p.last() != '/' {
        lemma_after_last_slash(p.drop_last());
        assert forall|j: int| after_last_slash(p) <= j < p.len() implies p[j] != '/' by {
            if j < p.len() - 1 {
                assert(p.drop_last()[j] == p[j]);
            }
        }
        if after_last_slash(p) > 0 {
            assert(p.drop_last()[after_last_slash(p) - 1] == p[after_last_slash(p) - 1]);
        }
    }
}

/// The position just after the last `/` in `p` (0 if there is none).
pub fn after_last_slash_exec(p: &Vec<char>, end: usize) -> (r: usize)
    requires
        end <= p.len(),
    ensures
        r == after_last_slash(p@.take(end as int)),
        r <= end,
{
    let mut j = end;
    while j > 0 && p[j - 1] != '/'
        invariant
            j <= end <= p.len(),
            after_last_slash(p@.take(end as int)) == after_last_slash(p@.take(j as int)),
        decreases j,
    {
        assert(p@.take(j as int).drop_last() =~= p@.take(j - 1));
        j -= 1;
    }
    if j > 0 {
        assert(p@.take(j as int).last() == '/');
    }
    j
}

/// The final component of a path, as `std::path::Path::file_name` gives it on
/// Unix: trailing separators and `.` components are skipped, and there is none
/// if the path is empty, is the root, or ends in `..`.
pub open spec fn file_name_of(p: Seq<char>) -> Option<Seq<char>>
    decreases p.len(),
{
    if p.len() == 0 {
        None
    } else if p.last() == '/' {
        file_name_of(p.drop_last())
    } else {
        let seg = p.skip(after_last_slash(p));
        proof {
            lemma_after_last_slash(p.drop_last());
        }
        if seg == seq!['.'] {
            file_name_of(p.take(after_last_slash(p)))
        } else if seg == seq!['.', '.'] {
            None
        } else {
            Some(seg)
        }
    }
}

pub proof fn lemma_after_last_slash_of_name(dir: Seq<char>, n: Seq<char>)
    requires
        forall|i: int| 0 <= i < n.len() ==> n[i] != '/',
    ensures
        after_last_slash(dir + seq!['/'] + n) == dir.len() + 1,
    decreases n.len(),
{
    let p = dir + seq!['/'] + n;
    if n.len() == 0 {
        assert(p.last() == '/');
    } else {
        assert(p.last() == n.last());
        assert(p.drop_last() =~= dir + seq!['/'] + n.drop_last());
        lemma_after_last_slash_of_name(dir, n.drop_last());
    }
}

/// The file name of a path is its last component: a name holding no `/`
/// that is neither `.` nor `..`, whether alone or after a directory and a
/// `/`.
pub proof fn law_file_name_is_last_component(dir: Seq<char>, n: Seq<char>)
    requires
        n.len() > 0,
        forall|i: int| 0 <= i < n.len() ==> n[i] != '/',
        n != seq!['.'],
        n != seq!['.', '.'],
    ensures
        file_name_of(dir + seq!['/'] + n) == Some(n),
        file_name_of(n) == Some(n),
{
    let p = dir + seq!['/'] + n;
    lemma_after_last_slash_of_name(dir, n);
    assert(p.last() == n.last());
    assert(p.skip(dir.len() + 1int) =~= n);
    lemma_after_last_slash_of_name_alone(n);
    assert(n.skip(0) =~= n);
}

pub proof fn lemma_after_last_slash_of_name_alone(n: Seq<char>)
    requires
        forall|i: int| 0 <= i < n.len() ==> n[i] != '/',
    ensures
        after_last_slash(n) == 0,
    decreases n.len(),
{
    if n.len() > 0 {
        lemma_after_last_slash_of_name_alone(n.drop_last());
    }
}

/// The character range of the final component of the path `p`, if any.
pub fn file_name_range(p: &Vec<char>) -> (r: Option<(usize, usize)>)
    ensures
        match r {
            Some((a, b)) => a <= b <= p.len() && file_name_of(p@) == Some(p@.subrange(a as int, b as int)),
            None => file_name_of(p@) is None,
        },
{
    let mut end = p.len();
    assert(p@.take(p.len() as int) =~= p@);
    loop
        invariant
            end <= p.len(),
            file_name_of(p@) == file_name_of(p@.take(end as int)),
        decreases end,
    {
        if end == 0 {
            return None;
        }
        let ghost q = p@.take(end as int);
        if p[end - 1] == '/' {
            assert(q.drop_last() =~= p@.take(end - 1));
            end -= 1;
        } else {
            let start = after_last_slash_exec(p, end);
            proof { lemma_after_last_slash(q); }
            assert(q.skip(start as int) =~= p@.subrange(start as int, end as int));
            let len = end - start;
            if len == 1 && p[start] == '.' {
                assert(q.skip(start as int) =~= seq!['.']);
                assert(q.take(start as int) =~= p@.take(start as int));
                end = start;
            } else if len == 2 && p[start] == '.' && p[start + 1] == '.' {
                assert(q.skip(start as int) =~= seq!['.', '.']);
                return None;
            } else {
                assert(q.skip(start as int) != seq!['.']) by {
                    if len == 1 {
                        assert(q.skip(start as int)[0] == p@[start as int]);
                    }
                }
                assert(q.skip(start as int) != seq!['.', '.']) by {
                    if len == 2 {
                        assert(q.skip(start as int)[0] == p@[start as int]);
                        assert(q.skip(start as int)[1] == p@[start + 1]);
                    }
                }
                return Some((start, end));
            }
        }
    }
}


/// Appends a character to a string: `String::push`, which std documents as
/// appending the given char to the end of the string.
#[verifier::external_body]
pub(crate) fn push_char(s: &mut String, c: char)
    ensures
        final(s)@ == old(s)@.push(c),
{
    s.push(c);
}

/// A string made of the given characters.
pub fn string_of(v: &Vec<char>) -> (r: String)
    ensures
        r@ == v@,
{
    let mut r = String::new();
    let mut i: usize = 0;
    while i < v.len()
        invariant
            i <= v.len(),
            r@ == v@.take(i as int),
        decreases v.len() - i,
    {
        push_char(&mut r, v[i]);
        assert(v@.take(i + 1) =~= v@.take(i as int).push(v@[i as int]));
        i += 1;
    }
    assert(v@.take(v.len() as int) =~= v@);
    r
}

/// A fresh copy of a string.
pub fn copy_str(s: &str) -> (r: String)
    ensures
        r@ == s@,
{
    s.to_owned()
}


/// Strict lexicographic order on sequences of strings, comparing the strings
/// with `chars_lt`: the order std gives to `Vec<String>`.
pub open spec fn strs_lt(a: Seq<Seq<char>>, b: Seq<Seq<char>>) -> bool
    decreases a.len(),
{
    if a.len() == 0 {
        b.len() > 0
    } else if b.len() == 0 {
        false
    } else if a[0] != b[0] {
        chars_lt(a[0], b[0])
    } else {
        strs_lt(a.drop_first(), b.drop_first())
    }
}

pub proof fn lemma_strs_lt_irreflexive(a: Seq<Seq<char>>)
    ensures
        !strs_lt(a, a),
    decreases a.len(),
{
    if a.len() > 0 {
        lemma_strs_lt_irreflexive(a.drop_first());
    }
}

pub proof fn lemma_strs_lt_transitive(a: Seq<Seq<char>>, b: Seq<Seq<char>>, c: Seq<Seq<char>>)
    requires
        strs_lt(a, b),
        strs_lt(b, c),
    ensures
        strs_lt(a, c),
    decreases a.len(),
{
    if a.len() > 0 && b.len() > 0 && c.len() > 0 {
        if a[0] == b[0] && b[0] == c[0] {
            lemma_strs_lt_transitive(a.drop_first(), b.drop_first(), c.drop_first());
        } else if a[0] == b[0] {
            assert(a[0] != c[0]);
        } else if b[0] == c[0] {
            assert(a[0] != c[0]);
        } else {
            lemma_chars_lt_transitive(a[0], b[0], c[0]);
            if a[0] == c[0] {
                lemma_chars_lt_asymmetric(a[0], b[0]);
            }
        }
    }
}

pub proof fn lemma_strs_lt_total(a: Seq<Seq<char>>, b: Seq<Seq<char>>)
    ensures
        a == b || strs_lt(a, b) || strs_lt(b, a),
    decreases a.len(),
{
    if a.len() > 0 && b.len() > 0 {
        if a[0] == b[0] {
            lemma_strs_lt_total(a.drop_first(), b.drop_first());
            if a.drop_first() == b.drop_first() {
                assert(a == seq![a[0]] + a.drop_first());
                assert(b == seq![b[0]] + b.drop_first());
            }
        } else {
            lemma_chars_lt_total(a[0], b[0]);
        }
    } else if a.len() == 0 && b.len() == 0 {
        assert(a =~= b);
    }
}

proof fn lemma_strs_lt_skip(a: Seq<Seq<char>>, b: Seq<Seq<char>>, i: int)
    requires
        0 <= i <= a.len(),
        i <= b.len(),
        a.take(i) == b.take(i),
    ensures
        strs_lt(a, b) == strs_lt(a.skip(i), b.skip(i)),
    decreases i,
{
    if i > 0 {
        assert(a[0] == a.take(i)[0]);
        assert(b[0] == b.take(i)[0]);
        assert(a.drop_first().take(i - 1) =~= a.take(i).drop_first());
        assert(b.drop_first().take(i - 1) =~= b.take(i).drop_first());
        lemma_strs_lt_skip(a.drop_first(), b.drop_first(), i - 1);
        assert(a.drop_first().skip(i - 1) =~= a.skip(i));
        assert(b.drop_first().skip(i - 1) =~= b.skip(i));
    } else {
        assert(a.skip(0) =~= a);
        assert(b.skip(0) =~= b);
    }
}

/// Three-way comparison of two sequences of strings.
pub fn compare_strs(a: &Vec<Vec<char>>, b: &Vec<Vec<char>>) -> (r: i8)
    ensures
        (r < 0) == strs_lt(a@.map_values(|v: Vec<char>| v@), b@.map_values(|v: Vec<char>| v@)),
        (r == 0) == (a@.map_values(|v: Vec<char>| v@) == b@.map_values(|v: Vec<char>| v@)),
        (r > 0) == strs_lt(b@.map_values(|v: Vec<char>| v@), a@.map_values(|v: Vec<char>| v@)),
{
    let ghost av = a@.map_values(|v: Vec<char>| v@);
    let ghost bv = b@.map_values(|v: Vec<char>| v@);
    let mut i: usize = 0;
    loop
        invariant
            i <= a.len(),
            i <= b.len(),
            av == a@.map_values(|v: Vec<char>| v@),
            bv == b@.map_values(|v: Vec<char>| v@),
            av.take(i as int) == bv.take(i as int),
        ensures
            i <= a.len(),
            i <= b.len(),
            av.take(i as int) == bv.take(i as int),
            i == a.len() || i == b.len() || av[i as int] != bv[i as int],
        decreases a.len() - i,
    {
        if i == a.len() || i == b.len() {
            break;
        }
        assert(av[i as int] == a@[i as int]@);
        assert(bv[i as int] == b@[i as int]@);
        if compare_chars(&a[i], &b[i]) != 0 {
            break;
        }
        assert(av.take(i + 1) =~= av.take(i as int).push(av[i as int]));
        assert(bv.take(i + 1) =~= bv.take(i as int).push(bv[i as int]));
        i += 1;
    }
    proof {
        lemma_strs_lt_skip(av, bv, i as int);
        lemma_strs_lt_skip(bv, av, i as int);
    }
    if i == a.len() && i == b.len() {
        assert(av =~= av.take(i as int));
        assert(bv =~= bv.take(i as int));
        proof { lemma_strs_lt_irreflexive(av); }
        0
    } else if i == a.len() {
        assert(av.skip(i as int).len() == 0);
        assert(av != bv);
        -1
    } else if i == b.len() {
        assert(bv.skip(i as int).len() == 0);
        assert(av != bv);
        1
    } else {
        assert(av.skip(i as int)[0] == av[i as int]);
        assert(bv.skip(i as int)[0] == bv[i as int]);
        assert(av != bv);
        assert(av[i as int] == a@[i as int]@);
        assert(bv[i as int] == b@[i as int]@);
        compare_chars(&a[i], &b[i])
    }
}


/// The code of a character with ASCII upper case letters made lower case.
pub open spec fn ascii_lower_code(c: char) -> u32 {
    if 65 <= (c as u32) <= 90 {
        ((c as u32) + 32) as u32
    } else {
        c as u32
    }
}

/// The two strings are equal once ASCII letters are made the same case, as
/// `str::eq_ignore_ascii_case` says.
pub open spec fn eq_ignore_ascii_case(a: Seq<char>, b: Seq<char>) -> bool {
    a.len() == b.len() && forall|i: int|
        0 <= i < a.len() ==> ascii_lower_code(#[trigger] a[i]) == ascii_lower_code(b[i])
}

/// Two characters are equal ignoring ASCII case exactly when they are the
/// same character, or the same ASCII letter in upper and lower case.
pub proof fn law_eq_ignore_ascii_case_letters(c: char, d: char)
    ensures
        eq_ignore_ascii_case(seq![c], seq![d]) <==> (c == d || ('A' <= c <= 'Z' && (d as u32) == (
        c as u32) + 32) || ('A' <= d <= 'Z' && (c as u32) == (d as u32) + 32)),
{
    assert(seq![c][0] == c);
    assert(seq![d][0] == d);
    if eq_ignore_ascii_case(seq![c], seq![d]) {
        assert(ascii_lower_code(seq![c][0]) == ascii_lower_code(seq![d][0]));
    }
}

/// Whether two strings are equal ignoring the case of ASCII letters.
pub fn eq_ignore_ascii_case_exec(a: &str, b: &str) -> (r: bool)
    ensures
        r == eq_ignore_ascii_case(a@, b@),
{
    let av = chars_of(a);
    let bv = chars_of(b);
    if av.len() != bv.len() {
        return false;
    }
    let mut i: usize = 0;
    while i < av.len()
        invariant
            i <= av.len(),
            av.len() == bv.len(),
            av@ == a@,
            bv@ == b@,
            forall|j: int| 0 <= j < i ==> ascii_lower_code(#[trigger] av@[j]) == ascii_lower_code(bv@[j]),
        decreases av.len() - i,
    {
        let x = av[i] as u32;
        let y = bv[i] as u32;
        let lx = if 65 <= x && x <= 90 { x + 32 } else { x };
        let ly = if 65 <= y && y <= 90 { y + 32 } else { y };
        if lx != ly {
            return false;
        }
        i += 1;
    }
    true
}

} // verus!
