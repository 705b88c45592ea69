//! Splitting strings at a pattern and joining pieces back together, trimming
//! white space, and writing numbers in decimal, with the meaning that
//! `str::split`, `[String]::join`, `str::trim` and `Display` for integers have
//! in std.

use crate::models::result::strs;
use crate::text::{chars_of, occurs_at, occurs_at_exec, push_char, string_of};
use vstd::prelude::*;
use vstd::string::StringExecFns;

verus! {

/// The first position, at `i` or later, where `p` occurs in `s`.
pub open spec fn find_from(s: Seq<char>, p: Seq<char>, i: int) -> Option<int>
    decreases s.len() + 1 - i,
{
    if i < 0 || i + p.len() > s.len() {
        None
    } else if occurs_at(s, p, i) {
        Some(i)
    } else {
        find_from(s, p, i + 1)
    }
}

pub proof fn lemma_find_from(s: Seq<char>, p: Seq<char>, i: int)
    requires
        0 <= i,
    ensures
        find_from(s, p, i) matches Some(k) ==> i <= k && occurs_at(s, p, k) && forall|j: int|
            i <= j < k ==> !occurs_at(s, p, j),
        find_from(s, p, i) is None ==> forall|j: int| i <= j ==> !occurs_at(s, p, j),
    decreases s.len() + 1 - i,
{
    if i + p.len() <= s.len() && !occurs_at(s, p, i) {
        lemma_find_from(s, p, i + 1);
    }
}

/// The pieces of `s` between the occurrences of `p`, left to right; an empty
/// `p` separates every character and both ends.
pub open spec fn split_at_pat(s: Seq<char>, p: Seq<char>) -> Seq<Seq<char>>
    decreases s.len(),
{
    if p.len() == 0 {
        seq![Seq::<char>::empty()] + s.map_values(|c: char| seq![c]) + seq![Seq::<char>::empty()]
    } else {
        match find_from(s, p, 0) {
            None => seq![s],
            Some(i) => {
                proof {
                    lemma_find_from(s, p, 0);
                }
                seq![s.take(i)] + split_at_pat(s.skip(i + p.len()), p)
            },
        }
    }
}

/// The pieces with `sep` between each two of them.
pub open spec fn join_with(pieces: Seq<Seq<char>>, sep: Seq<char>) -> Seq<char>
    decreases pieces.len(),
{
    if pieces.len() == 0 {
        Seq::empty()
    } else if pieces.len() == 1 {
        pieces[0]
    } else {
        pieces[0] + sep + join_with(pieces.drop_first(), sep)
    }
}

/// Joining one more piece on the right.
pub proof fn lemma_join_push(pieces: Seq<Seq<char>>, sep: Seq<char>, last: Seq<char>)
    requires
        pieces.len() > 0,
    ensures
        join_with(pieces.push(last), sep) == join_with(pieces, sep) + sep + last,
    decreases pieces.len(),
{
    let q = pieces.push(last);
    assert(q[0] == pieces[0]);
    if pieces.len() == 1 {
        assert(q.drop_first() =~= seq![last]);
        assert(join_with(seq![last], sep) == last);
    } else {
        assert(q.drop_first() =~= pieces.drop_first().push(last));
        lemma_join_push(pieces.drop_first(), sep, last);
        let j = join_with(pieces.drop_first(), sep);
        assert(join_with(q, sep) == pieces[0] + sep + (j + sep + last));
        assert(pieces[0] + sep + (j + sep + last) =~= pieces[0] + sep + j + sep + last);
    }
}

/// Joining with nothing between the pieces of a split at nothing gives the
/// characters back.
proof fn lemma_join_singletons(s: Seq<char>)
    ensures
        join_with(s.map_values(|c: char| seq![c]) + seq![Seq::<char>::empty()], Seq::empty()) == s,
    decreases s.len(),
{
    let q = s.map_values(|c: char| seq![c]) + seq![Seq::<char>::empty()];
    if s.len() == 0 {
        assert(q =~= seq![Seq::<char>::empty()]);
    } else {
        let t = s.drop_first();
        lemma_join_singletons(t);
        assert(q.drop_first() =~= t.map_values(|c: char| seq![c]) + seq![Seq::<char>::empty()]);
        assert(q[0] == seq![s[0]]);
        assert(s =~= seq![s[0]] + t);
    }
}

/// Where `p` first occurs at `k`, from `i` on, that is what `find_from` finds.
proof fn lemma_find_from_at(s: Seq<char>, p: Seq<char>, i: int, k: int)
    requires
        0 <= i <= k,
        occurs_at(s, p, k),
        forall|j: int| i <= j < k ==> !occurs_at(s, p, j),
    ensures
        find_from(s, p, i) == Some(k),
    decreases k - i,
{
    if i < k {
        lemma_find_from_at(s, p, i + 1, k);
    }
}

/// Splitting at a character the pieces of a join at that character, where no
/// piece holds the character, gives back the pieces.
pub proof fn law_split_undoes_join(pieces: Seq<Seq<char>>, c: char)
    requires
        pieces.len() > 0,
        forall|i: int| 0 <= i < pieces.len() ==> !(#[trigger] pieces[i]).contains(c),
    ensures
        split_at_pat(join_with(pieces, seq![c]), seq![c]) == pieces,
    decreases pieces.len(),
{
    let p = seq![c];
    let s = join_with(pieces, p);
    let first = pieces[0];
    assert forall|j: int| 0 <= j < first.len() implies !occurs_at(s, p, j) by {
        if occurs_at(s, p, j) {
            if pieces.len() == 1 {
                assert(s[j] == first[j]);
            } else {
                assert(s == first + p + join_with(pieces.drop_first(), p));
                assert(s[j] == first[j]);
            }
            assert(s.subrange(j, j + 1)[0] == s[j]);
            assert(first.contains(first[j]));
        }
    }
    if pieces.len() == 1 {
        assert(s == first);
        assert forall|j: int| 0 <= j implies !occurs_at(s, p, j) by {
            if j < first.len() {
            }
        }
        lemma_find_from(s, p, 0);
        if find_from(s, p, 0) is Some {
            let k = find_from(s, p, 0).unwrap();
            assert(occurs_at(s, p, k));
        }
        assert(split_at_pat(s, p) == seq![s]);
        assert(split_at_pat(s, p) =~= pieces);
    } else {
        let rest = pieces.drop_first();
        assert(s == first + p + join_with(rest, p));
        let k = first.len() as int;
        assert(s.subrange(k, k + 1) =~= p);
        lemma_find_from_at(s, p, 0, k);
        assert(s.take(k) =~= first);
        assert(s.skip(k + 1) =~= join_with(rest, p));
        assert forall|i: int| 0 <= i < rest.len() implies !(#[trigger] rest[i]).contains(c) by {
            assert(rest[i] == pieces[i + 1]);
        }
        law_split_undoes_join(rest, c);
        assert(split_at_pat(s, p) == seq![s.take(k)] + split_at_pat(s.skip(k + 1), p));
        assert(split_at_pat(s, p) =~= pieces);
    }
}

/// Joining the pieces of a split with the pattern gives back the string.
pub proof fn law_join_undoes_split(s: Seq<char>, p: Seq<char>)
    ensures
        join_with(split_at_pat(s, p), p) == s,
    decreases s.len(),
{
    if p.len() == 0 {
        let q = s.map_values(|c: char| seq![c]) + seq![Seq::<char>::empty()];
        let whole = seq![Seq::<char>::empty()] + q;
        assert(split_at_pat(s, p) =~= whole);
        assert(whole.drop_first() =~= q);
        lemma_join_singletons(s);
        assert(p =~= Seq::<char>::empty());
        assert(join_with(whole, p) =~= Seq::<char>::empty() + p + join_with(q, p));
    } else {
        lemma_find_from(s, p, 0);
        match find_from(s, p, 0) {
            None => {},
            Some(i) => {
                let rest = s.skip(i + p.len());
                law_join_undoes_split(rest, p);
                let tail = split_at_pat(rest, p);
                let whole = seq![s.take(i)] + tail;
                assert(whole.drop_first() =~= tail);
                assert(tail.len() > 0) by {
                    reveal_with_fuel(split_at_pat, 2);
                    lemma_find_from(rest, p, 0);
                }
                assert(s.subrange(i, i + p.len()) == p);
                assert(s =~= s.take(i) + p + rest);
            },
        }
    }
}

/// The characters of `v` from `a` up to `b`.
fn copy_range(v: &Vec<char>, a: usize, b: usize) -> (r: Vec<char>)
    requires
        a <= b <= v.len(),
    ensures
        r@ == v@.subrange(a as int, b as int),
{
    let mut r: Vec<char> = Vec::new();
    let mut i = a;
    while i < b
        invariant
            a <= i <= b <= v.len(),
            r@ == v@.subrange(a as int, i as int),
        decreases b - i,
    {
        r.push(v[i]);
        assert(v@.subrange(a as int, i + 1) =~= v@.subrange(a as int, i as int).push(v@[i as int]));
        i += 1;
    }
    r
}

/// Where `p` occurs in a suffix of `s`, it occurs in `s`, shifted.
proof fn lemma_occurs_in_skip(s: Seq<char>, p: Seq<char>, start: int, j: int)
    requires
        0 <= start <= s.len(),
        0 <= j,
    ensures
        occurs_at(s.skip(start), p, j) == occurs_at(s, p, start + j),
{
    let t = s.skip(start);
    if j + p.len() <= t.len() {
        assert(t.subrange(j, j + p.len()) =~= s.subrange(start + j, start + j + p.len()));
    }
}

/// The pieces of `s` between the occurrences of `p`, as `str::split` gives
/// them.
pub fn split_str(s: &str, p: &str) -> (r: Vec<String>)
    ensures
        strs(r) == split_at_pat(s@, p@),
{
    let sv = chars_of(s);
    let pv = chars_of(p);
    let mut out: Vec<String> = Vec::new();
    if pv.len() == 0 {
        out.push(String::new());
        let mut i: usize = 0;
        while i < sv.len()
            invariant
                i <= sv.len(),
                strs(out) == seq![Seq::<char>::empty()] + sv@.take(i as int).map_values(
                    |c: char| seq![c],
                ),
            decreases sv.len() - i,
        {
            let ghost prev = strs(out);
            let one = copy_range(&sv, i, i + 1);
            let piece = string_of(&one);
            out.push(piece);
            assert(strs(out) =~= prev.push(piece@));
            assert(piece@ =~= seq![sv@[i as int]]);
            assert(sv@.take(i + 1).map_values(|c: char| seq![c]) =~= sv@.take(i as int).map_values(
                |c: char| seq![c],
            ).push(seq![sv@[i as int]]));
            i += 1;
        }
        let ghost prev = strs(out);
        out.push(String::new());
        assert(strs(out) =~= prev.push(Seq::<char>::empty()));
        assert(sv@.take(i as int) =~= s@);
        assert(strs(out) =~= split_at_pat(s@, p@));
        return out;
    }
    let mut start: usize = 0;
    let mut i: usize = 0;
    assert(s@.skip(0) =~= s@);
    assert(strs(out) =~= Seq::<Seq<char>>::empty());
    assert(strs(out) + split_at_pat(s@, p@) =~= split_at_pat(s@, p@));
    while i <= sv.len() && pv.len() <= sv.len() - i
        invariant
            sv@ == s@,
            pv@ == p@,
            pv.len() > 0,
            start <= i <= sv.len() + 1,
            start <= sv.len(),
            split_at_pat(s@, p@) == strs(out) + split_at_pat(s@.skip(start as int), p@),
            find_from(s@.skip(start as int), p@, 0) == find_from(
                s@.skip(start as int),
                p@,
                i - start,
            ),
        decreases sv.len() + 1 - i,
    {
        let ghost t = s@.skip(start as int);
        proof {
            lemma_occurs_in_skip(s@, p@, start as int, i - start);
        }
        if occurs_at_exec(&sv, &pv, i) {
            assert(find_from(t, p@, i - start) == Some((i - start) as int));
            let piece = string_of(&copy_range(&sv, start, i));
            let ghost prev = strs(out);
            out.push(piece);
            proof {
                lemma_find_from(t, p@, 0);
                assert(t.take(i - start) =~= s@.subrange(start as int, i as int));
                assert(t.skip(i - start + p@.len()) =~= s@.skip(i + p@.len()));
                assert(strs(out) =~= prev.push(piece@));
                assert(split_at_pat(t, p@) == seq![t.take(i - start)] + split_at_pat(
                    s@.skip(i + p@.len()),
                    p@,
                ));
                assert(prev + split_at_pat(t, p@) =~= strs(out) + split_at_pat(
                    s@.skip(i + p@.len()),
                    p@,
                ));
            }
            start = i + pv.len();
            i = start;
        } else {
            i += 1;
        }
    }
    let ghost t = s@.skip(start as int);
    proof {
        lemma_find_from(t, p@, 0);
        if i - start >= 0 {
            assert(find_from(t, p@, i - start) is None);
        }
        assert(t =~= s@.subrange(start as int, sv.len() as int));
    }
    let last = string_of(&copy_range(&sv, start, sv.len()));
    let ghost prev = strs(out);
    out.push(last);
    assert(strs(out) =~= prev.push(last@));
    assert(split_at_pat(t, p@) == seq![t]);
    out
}

/// The strings with `sep` between each two of them, as `join` gives them.
pub fn join_strs(v: &Vec<String>, sep: &str) -> (r: String)
    ensures
        r@ == join_with(strs(*v), sep@),
{
    let mut r = String::new();
    if v.len() == 0 {
        return r;
    }
    r.append(v[0].as_str());
    let mut i: usize = 1;
    assert(strs(*v).take(1) =~= seq![v@[0]@]);
    while i < v.len()
        invariant
            1 <= i <= v.len(),
            r@ == join_with(strs(*v).take(i as int), sep@),
        decreases v.len() - i,
    {
        proof {
            lemma_join_push(strs(*v).take(i as int), sep@, v@[i as int]@);
            assert(strs(*v).take(i + 1) =~= strs(*v).take(i as int).push(v@[i as int]@));
        }
        r.append(sep);
        r.append(v[i].as_str());
        i += 1;
    }
    assert(strs(*v).take(i as int) =~= strs(*v));
    r
}

/// White space as Unicode's `White_Space` property has it, which is what
/// `char::is_whitespace` and `str::trim` go by.
pub open spec fn is_white(c: char) -> bool {
    let n = c as u32;
    (9 <= n <= 13) || n == 32 || n == 0x85 || n == 0xa0 || n == 0x1680 || (0x2000 <= n <= 0x200a)
        || n == 0x2028 || n == 0x2029 || n == 0x202f || n == 0x205f || n == 0x3000
}

/// Whether `c` is white space.
pub fn is_white_exec(c: char) -> (r: bool)
    ensures
        r == is_white(c),
{
    let n = c as u32;
    (9 <= n && n <= 13) || n == 32 || n == 0x85 || n == 0xa0 || n == 0x1680 || (0x2000 <= n && n
        <= 0x200a) || n == 0x2028 || n == 0x2029 || n == 0x202f || n == 0x205f || n == 0x3000
}

/// `s` without its leading white space.
pub open spec fn trim_start(s: Seq<char>) -> Seq<char>
    decreases s.len(),
{
    if s.len() > 0 && is_white(s[0]) {
        trim_start(s.drop_first())
    } else {
        s
    }
}

/// `s` without its trailing white space.
pub open spec fn trim_end(s: Seq<char>) -> Seq<char>
    decreases s.len(),
{
    if s.len() > 0 && is_white(s.last()) {
        trim_end(s.drop_last())
    } else {
        s
    }
}

/// `s` without leading and trailing white space.
pub open spec fn trimmed(s: Seq<char>) -> Seq<char> {
    trim_end(trim_start(s))
}

proof fn lemma_trim_start_white(a: Seq<char>, m: Seq<char>)
    requires
        forall|i: int| 0 <= i < a.len() ==> is_white(#[trigger] a[i]),
        m.len() > 0 ==> !is_white(m[0]),
    ensures
        trim_start(a + m) == m,
    decreases a.len(),
{
    if a.len() > 0 {
        assert((a + m).drop_first() =~= a.drop_first() + m);
        assert((a + m)[0] == a[0]);
        lemma_trim_start_white(a.drop_first(), m);
    } else {
        assert(a + m =~= m);
    }
}

proof fn lemma_trim_end_white(m: Seq<char>, b: Seq<char>)
    requires
        forall|i: int| 0 <= i < b.len() ==> is_white(#[trigger] b[i]),
        m.len() > 0 ==> !is_white(m.last()),
    ensures
        trim_end(m + b) == m,
    decreases b.len(),
{
    if b.len() > 0 {
        assert((m + b).drop_last() =~= m + b.drop_last());
        assert((m + b).last() == b.last());
        lemma_trim_end_white(m, b.drop_last());
    } else {
        assert(m + b =~= m);
    }
}

/// Trimming takes off exactly the white space around the text: white space,
/// then non-empty text that neither starts nor ends with white space, then
/// white space, trims to the text.
pub proof fn law_trim_takes_off_surrounding_white(a: Seq<char>, m: Seq<char>, b: Seq<char>)
    requires
        forall|i: int| 0 <= i < a.len() ==> is_white(#[trigger] a[i]),
        forall|i: int| 0 <= i < b.len() ==> is_white(#[trigger] b[i]),
        m.len() > 0,
        !is_white(m[0]),
        !is_white(m.last()),
    ensures
        trimmed(a + m + b) == m,
{
    assert(a + m + b =~= a + (m + b));
    assert((m + b)[0] == m[0]);
    lemma_trim_start_white(a, m + b);
    lemma_trim_end_white(m, b);
}

/// `s` without leading and trailing white space, as `str::trim` gives it.
pub fn trim_str(s: &str) -> (r: String)
    ensures
        r@ == trimmed(s@),
{
    let v = chars_of(s);
    let mut a: usize = 0;
    assert(v@.skip(0) =~= v@);
    while a < v.len() && is_white_exec(v[a])
        invariant
            a <= v.len(),
            trim_start(v@) == trim_start(v@.skip(a as int)),
        decreases v.len() - a,
    {
        assert(v@.skip(a as int).drop_first() =~= v@.skip(a + 1));
        a += 1;
    }
    assert(trim_start(v@) == v@.skip(a as int)) by {
        if a < v.len() {
            assert(v@.skip(a as int)[0] == v@[a as int]);
        }
    }
    let ghost t = v@.skip(a as int);
    let mut b: usize = v.len();
    assert(t.take(b - a) =~= t);
    while b > a && is_white_exec(v[b - 1])
        invariant
            a <= b <= v.len(),
            t == v@.skip(a as int),
            trim_end(t) == trim_end(t.take(b - a)),
        decreases b,
    {
        assert(t.take(b - a).last() == v@[b - 1]);
        assert(t.take(b - a).drop_last() =~= t.take(b - 1 - a));
        b -= 1;
    }
    assert(t.take(b - a) =~= v@.subrange(a as int, b as int));
    assert(trim_end(t.take(b - a)) == t.take(b - a)) by {
        if b > a {
            assert(t.take(b - a).last() == v@[b - 1]);
        }
    }
    string_of(&copy_range(&v, a, b))
}

/// The decimal digits.
pub open spec fn digit_chars() -> Seq<char> {
    seq!['0', '1', '2', '3', '4', '5', '6', '7', '8', '9']
}

/// `n` written in decimal, without leading zeros.
pub open spec fn decimal(n: nat) -> Seq<char>
    decreases n,
{
    if n < 10 {
        seq![digit_chars()[n as int]]
    } else {
        decimal(n / 10).push(digit_chars()[(n % 10) as int])
    }
}

/// The value of a decimal digit character.
pub open spec fn digit_value(c: char) -> int {
    (c as u32) - ('0' as u32)
}

/// The number that a string of decimal digits reads as.
pub open spec fn digits_value(s: Seq<char>) -> int
    decreases s.len(),
{
    if s.len() == 0 {
        0
    } else {
        digits_value(s.drop_last()) * 10 + digit_value(s.last())
    }
}

/// Writing `n` in decimal gives digits only, with no leading zero (but for
/// zero itself), that read back as `n`.
pub proof fn law_decimal_reads_back(n: nat)
    ensures
        decimal(n).len() > 0,
        forall|i: int| 0 <= i < decimal(n).len() ==> '0' <= #[trigger] decimal(n)[i] <= '9',
        n > 0 ==> decimal(n)[0] != '0',
        digits_value(decimal(n)) == n,
    decreases n,
{
    if n >= 10 {
        let q = n / 10;
        let d = (n % 10) as int;
        law_decimal_reads_back(q);
        let s = decimal(n);
        assert(s == decimal(q).push(digit_chars()[d]));
        assert(s.drop_last() =~= decimal(q));
        assert(digit_value(digit_chars()[d]) == d);
        assert(q * 10 + d == n);
        assert(s.last() == digit_chars()[d]);
        assert(digits_value(s) == digits_value(decimal(q)) * 10 + digit_value(s.last()));
        assert(q > 0);
        assert(decimal(q)[0] != '0');
        assert(s[0] == decimal(q)[0]);
        assert(s[0] != '0');
        assert forall|i: int| 0 <= i < s.len() implies '0' <= #[trigger] s[i] <= '9' by {
            if i < s.len() - 1 {
                assert(s[i] == decimal(q)[i]);
            }
        }
    } else {
        assert(decimal(n) == seq![digit_chars()[n as int]]);
        assert(decimal(n).drop_last() =~= Seq::<char>::empty());
        assert(digit_value(digit_chars()[n as int]) == n);
        assert(decimal(n)[0] == digit_chars()[n as int]);
        assert(digit_value('0') == 0);
        assert(decimal(n).last() == digit_chars()[n as int]);
        assert(digits_value(decimal(n).drop_last()) == 0);
        assert(digits_value(decimal(n)) == digits_value(decimal(n).drop_last()) * 10 + digit_value(
            decimal(n).last(),
        ));
        assert(n > 0 ==> decimal(n)[0] != '0');
    }
}

fn digit(d: u64) -> (c: char)
    requires
        d < 10,
    ensures
        c == digit_chars()[d as int],
{
    match d {
        0 => '0',
        1 => '1',
        2 => '2',
        3 => '3',
        4 => '4',
        5 => '5',
        6 => '6',
        7 => '7',
        8 => '8',
        _ => '9',
    }
}

/// Appends `n` written in decimal.
pub fn push_decimal(out: &mut String, n: u64)
    ensures
        final(out)@ == old(out)@ + decimal(n as nat),
    decreases n,
{
    if n >= 10 {
        push_decimal(out, n / 10);
    }
    let ghost mid = out@;
    push_char(out, digit(n % 10));
    proof {
        if n >= 10 {
            assert(out@ =~= old(out)@ + decimal(n as nat));
        } else {
            assert(out@ =~= old(out)@ + decimal(n as nat));
        }
    }
}

} // verus!
