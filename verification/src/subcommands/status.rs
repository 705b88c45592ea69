//! The `status` subcommands: the short status of each changed file of a repo,
//! and what the result says of each repo.

use crate::models::repo::{Repo, RepoV};
use crate::models::result::{repo_with_path, strs, GitGlobalResult, GitGlobalResultV};
use crate::paint::{
    blue, blue_code, dimmed, dimmed_code, green_underline, green_underline_code, shown_as,
};
use crate::text::{chars_contain, chars_of, str_contains};
use vstd::prelude::*;
use vstd::string::StringExecFns;

verus! {

/// The file is new in the index.
pub const INDEX_NEW: u32 = 1;

/// The file is modified in the index.
pub const INDEX_MODIFIED: u32 = 2;

/// The file is deleted in the index.
pub const INDEX_DELETED: u32 = 4;

/// The file is renamed in the index.
pub const INDEX_RENAMED: u32 = 8;

/// The type of the file changed in the index.
pub const INDEX_TYPECHANGE: u32 = 16;

/// The file is new in the working tree.
pub const WT_NEW: u32 = 128;

/// The file is modified in the working tree.
pub const WT_MODIFIED: u32 = 256;

/// The file is deleted in the working tree.
pub const WT_DELETED: u32 = 512;

/// The type of the file changed in the working tree.
pub const WT_TYPECHANGE: u32 = 1024;

/// The file is renamed in the working tree.
pub const WT_RENAMED: u32 = 2048;

/// The file is ignored.
pub const IGNORED: u32 = 16384;

/// The file is in conflict.
pub const CONFLICTED: u32 = 32768;

/// Whether the status `bits` have `flag` set.
pub open spec fn has_flag(bits: u32, flag: u32) -> bool {
    bits & flag != 0
}

fn has_flag_exec(bits: u32, flag: u32) -> (r: bool)
    ensures
        r == has_flag(bits, flag),
{
    bits & flag != 0
}

/// The letter for the state of the file in the index.
pub open spec fn index_letter(bits: u32) -> char {
    if has_flag(bits, INDEX_NEW) {
        'A'
    } else if has_flag(bits, INDEX_MODIFIED) {
        'M'
    } else if has_flag(bits, INDEX_DELETED) {
        'D'
    } else if has_flag(bits, INDEX_RENAMED) {
        'R'
    } else if has_flag(bits, INDEX_TYPECHANGE) {
        'T'
    } else {
        ' '
    }
}

/// The letter for the state of the file in the working tree.
pub open spec fn worktree_letter(bits: u32) -> char {
    if has_flag(bits, WT_NEW) {
        '?'
    } else if has_flag(bits, WT_MODIFIED) {
        'M'
    } else if has_flag(bits, WT_DELETED) {
        'D'
    } else if has_flag(bits, WT_RENAMED) {
        'R'
    } else if has_flag(bits, WT_TYPECHANGE) {
        'T'
    } else {
        ' '
    }
}

/// The two letters of `git status --short` for a file with the status
/// `bits`: `CC` for a conflict, `!!` for an ignored file, `??` for a file that
/// is new in the working tree only, and otherwise the letter for the index
/// then the letter for the working tree.
pub open spec fn short_status(bits: u32) -> Seq<char> {
    if has_flag(bits, CONFLICTED) {
        seq!['C', 'C']
    } else if has_flag(bits, IGNORED) {
        seq!['!', '!']
    } else if has_flag(bits, WT_NEW) && index_letter(bits) == ' ' {
        seq!['?', '?']
    } else {
        seq![index_letter(bits), worktree_letter(bits)]
    }
}

/// Turns a file's status flags into their "short format" representation.
pub fn get_short_format_status(bits: u32) -> (r: String)
    ensures
        r@ == short_status(bits),
{
    let mut istatus = if has_flag_exec(bits, INDEX_NEW) {
        'A'
    } else if has_flag_exec(bits, INDEX_MODIFIED) {
        'M'
    } else if has_flag_exec(bits, INDEX_DELETED) {
        'D'
    } else if has_flag_exec(bits, INDEX_RENAMED) {
        'R'
    } else if has_flag_exec(bits, INDEX_TYPECHANGE) {
        'T'
    } else {
        ' '
    };
    let mut wstatus = if has_flag_exec(bits, WT_NEW) {
        if istatus == ' ' {
            istatus = '?';
        }
        '?'
    } else if has_flag_exec(bits, WT_MODIFIED) {
        'M'
    } else if has_flag_exec(bits, WT_DELETED) {
        'D'
    } else if has_flag_exec(bits, WT_RENAMED) {
        'R'
    } else if has_flag_exec(bits, WT_TYPECHANGE) {
        'T'
    } else {
        ' '
    };
    if has_flag_exec(bits, IGNORED) {
        istatus = '!';
        wstatus = '!';
    }
    if has_flag_exec(bits, CONFLICTED) {
        istatus = 'C';
        wstatus = 'C';
    }
    let mut r = String::new();
    crate::text::push_char(&mut r, istatus);
    crate::text::push_char(&mut r, wstatus);
    assert(r@ =~= short_status(bits));
    r
}

/// The letters of the short status, flag by flag: a conflict shows `CC`, an
/// ignored file `!!`; otherwise the working-tree letter is `?` for a new
/// file, else `M` for a modified one, else `D` for a deleted one, else `R`
/// for a renamed one, else `T` for a changed type, else a space; the index
/// letter is `A`, `M`, `D`, `R`, `T` in the same way, and where the index has
/// no change it is `?` for a new file and a space otherwise.
pub proof fn law_short_status_letters(bits: u32)
    ensures
        short_status(bits).len() == 2,
        has_flag(bits, CONFLICTED) ==> short_status(bits) == seq!['C', 'C'],
        !has_flag(bits, CONFLICTED) && has_flag(bits, IGNORED) ==> short_status(bits) == seq![
            '!',
            '!',
        ],
        !has_flag(bits, CONFLICTED) && !has_flag(bits, IGNORED) ==> {
            let w = short_status(bits)[1];
            &&& has_flag(bits, WT_NEW) ==> w == '?'
            &&& !has_flag(bits, WT_NEW) && has_flag(bits, WT_MODIFIED) ==> w == 'M'
            &&& !has_flag(bits, WT_NEW) && !has_flag(bits, WT_MODIFIED) && has_flag(bits, WT_DELETED)
                ==> w == 'D'
            &&& !has_flag(bits, WT_NEW) && !has_flag(bits, WT_MODIFIED) && !has_flag(bits, WT_DELETED)
                && has_flag(bits, WT_RENAMED) ==> w == 'R'
            &&& !has_flag(bits, WT_NEW) && !has_flag(bits, WT_MODIFIED) && !has_flag(bits, WT_DELETED)
                && !has_flag(bits, WT_RENAMED) && has_flag(bits, WT_TYPECHANGE) ==> w == 'T'
            &&& !has_flag(bits, WT_NEW) && !has_flag(bits, WT_MODIFIED) && !has_flag(bits, WT_DELETED)
                && !has_flag(bits, WT_RENAMED) && !has_flag(bits, WT_TYPECHANGE) ==> w == ' '
        },
        !has_flag(bits, CONFLICTED) && !has_flag(bits, IGNORED) ==> {
            let i = short_status(bits)[0];
            &&& has_flag(bits, INDEX_NEW) ==> i == 'A'
            &&& !has_flag(bits, INDEX_NEW) && has_flag(bits, INDEX_MODIFIED) ==> i == 'M'
            &&& !has_flag(bits, INDEX_NEW) && !has_flag(bits, INDEX_MODIFIED) && has_flag(
                bits,
                INDEX_DELETED,
            ) ==> i == 'D'
            &&& !has_flag(bits, INDEX_NEW) && !has_flag(bits, INDEX_MODIFIED) && !has_flag(
                bits,
                INDEX_DELETED,
            ) && has_flag(bits, INDEX_RENAMED) ==> i == 'R'
            &&& !has_flag(bits, INDEX_NEW) && !has_flag(bits, INDEX_MODIFIED) && !has_flag(
                bits,
                INDEX_DELETED,
            ) && !has_flag(bits, INDEX_RENAMED) && has_flag(bits, INDEX_TYPECHANGE) ==> i == 'T'
            &&& !has_flag(bits, INDEX_NEW) && !has_flag(bits, INDEX_MODIFIED) && !has_flag(
                bits,
                INDEX_DELETED,
            ) && !has_flag(bits, INDEX_RENAMED) && !has_flag(bits, INDEX_TYPECHANGE) ==> i == (
            if has_flag(bits, WT_NEW) {
                '?'
            } else {
                ' '
            })
        },
{
}

/// The status line of a file: its short status, a space, and its path.
pub fn status_line(bits: u32, path: &str) -> (r: String)
    ensures
        r@ == short_status(bits) + " "@ + path@,
{
    let mut r = get_short_format_status(bits);
    r.append(" ");
    r.append(path);
    r
}

/// Whether a status line is that of an untracked file.
pub open spec fn untracked_line(l: Seq<char>) -> bool {
    l.len() >= 2 && l[0] == '?' && l[1] == '?'
}

/// The status line of a file counts as that of an untracked file exactly when
/// the file is new in the working tree and neither in conflict, ignored, nor
/// changed in the index.
pub proof fn law_untracked_lines_are_new_files(bits: u32, path: Seq<char>)
    ensures
        untracked_line(short_status(bits) + " "@ + path) <==> (has_flag(bits, WT_NEW) && !has_flag(
            bits,
            CONFLICTED,
        ) && !has_flag(bits, IGNORED) && !has_flag(bits, INDEX_NEW) && !has_flag(
            bits,
            INDEX_MODIFIED,
        ) && !has_flag(bits, INDEX_DELETED) && !has_flag(bits, INDEX_RENAMED) && !has_flag(
            bits,
            INDEX_TYPECHANGE,
        )),
{
    let l = short_status(bits) + " "@ + path;
    assert(l[0] == short_status(bits)[0]);
    assert(l[1] == short_status(bits)[1]);
}

/// The status lines, without those of untracked files where they are to be
/// left out.
pub fn drop_untracked(lines: Vec<String>, ignore_untracked: bool) -> (r: Vec<String>)
    ensures
        !ignore_untracked ==> r == lines,
        ignore_untracked ==> strs(r) == strs(lines).filter(|l: Seq<char>| !untracked_line(l)),
{
    if !ignore_untracked {
        return lines;
    }
    let ghost keep = |l: Seq<char>| !untracked_line(l);
    let mut r: Vec<String> = Vec::new();
    let mut i: usize = 0;
    while i < lines.len()
        invariant
            i <= lines.len(),
            keep == (|l: Seq<char>| !untracked_line(l)),
            strs(r) == strs(lines).take(i as int).filter(keep),
        decreases lines.len() - i,
    {
        let ghost prev = strs(r);
        proof {
            assert(strs(lines).take(i + 1) =~= strs(lines).take(i as int).push(lines@[i as int]@));
            strs(lines).take(i as int).lemma_filter_push(lines@[i as int]@, keep);
        }
        let c = chars_of(lines[i].as_str());
        let untracked = c.len() >= 2 && c[0] == '?' && c[1] == '?';
        if !untracked {
            r.push(lines[i].clone());
            assert(strs(r) =~= prev.push(lines@[i as int]@));
        }
        i += 1;
    }
    assert(strs(lines).take(i as int) =~= strs(lines));
    r
}

/// `out` is the header shown above a repo's status lines: "Status for" shown
/// blue, a space, and the path shown green and underlined.
pub open spec fn status_header(out: Seq<char>, path: Seq<char>) -> bool {
    exists|a: Seq<char>, b: Seq<char>|
        #![trigger a + " "@ + b]
        shown_as(a, "Status for"@, blue_code()) && shown_as(b, path, green_underline_code()) && out
            == a + " "@ + b
}

/// The lines that the result gets for a repo's status: the header (dimmed,
/// and only where all files are wanted, when there are no status lines) and
/// then the status lines.
pub open spec fn status_entry(
    header: Seq<char>,
    dimmed_header: Seq<char>,
    lines: Seq<Seq<char>>,
    only_modified: bool,
) -> Seq<Seq<char>> {
    if lines.len() == 0 {
        if only_modified {
            Seq::empty()
        } else {
            seq![dimmed_header]
        }
    } else {
        seq![header] + lines
    }
}

/// The result after `extra` lines are added to the messages of the repo `r`,
/// where the result knows it.
pub open spec fn with_lines_for(
    v: GitGlobalResultV,
    r: RepoV,
    extra: Seq<Seq<char>>,
) -> GitGlobalResultV {
    if v.repo_messages.dom().contains(r) {
        GitGlobalResultV {
            repo_messages: v.repo_messages.insert(r, v.repo_messages[r] + extra),
            ..v
        }
    } else {
        v
    }
}

/// Adds to the result what the status of the repo at `path` says, under the
/// first known repo with that path, unless a path filter is given that the
/// path does not contain; a path that no known repo has adds nothing.
pub fn add_status(
    result: &mut GitGlobalResult,
    path: String,
    lines: Vec<String>,
    only_modified: bool,
    path_filter: &Option<String>,
)
    ensures
        (path_filter matches Some(pf) && !chars_contain(path@, pf@)) ==> final(result)@ == old(
            result,
        )@,
        repo_with_path(old(result)@.repos, path@) is None ==> final(result)@ == old(result)@,
        !(path_filter matches Some(pf) && !chars_contain(path@, pf@)) ==> (repo_with_path(
            old(result)@.repos,
            path@,
        ) matches Some(known) ==> exists|h: Seq<char>, dh: Seq<char>|
            #![trigger status_entry(h, dh, strs(lines), only_modified)]
            status_header(h, path@) && shown_as(dh, h, dimmed_code()) && final(result)@
                == with_lines_for(old(result)@, known, status_entry(h, dh, strs(lines), only_modified))),
{
    if let Some(pf) = path_filter {
        if !str_contains(path.as_str(), pf.as_str()) {
            return;
        }
    }
    let repo = match result.known_repo_at(path.as_str()) {
        Some(r) => r,
        None => return,
    };
    let a = blue("Status for");
    let b = green_underline(path.as_str());
    let mut ss = String::new();
    ss.append(a.as_str());
    ss.append(" ");
    ss.append(b.as_str());
    assert(ss@ =~= a@ + " "@ + b@);
    assert(status_header(ss@, path@));
    let dh = dimmed(ss.as_str());
    let ghost start = result@;
    let ghost entry = status_entry(ss@, dh@, strs(lines), only_modified);
    let mut added: usize = 0;
    if lines.len() == 0 {
        if !only_modified {
            result.add_repo_message(&repo, dh);
            added = 1;
        }
    } else {
        result.add_repo_message(&repo, ss);
        added = 1;
    }
    proof {
        let r = repo@;
        if start.repo_messages.dom().contains(r) {
            let m0 = start.repo_messages[r];
            if added == 0 {
                assert(entry.take(0) =~= Seq::<Seq<char>>::empty());
                assert(m0 + entry.take(0) =~= m0);
                assert(start.repo_messages.insert(r, m0) =~= start.repo_messages);
            } else {
                assert(entry.take(1) =~= seq![entry[0]]);
                assert(m0 + entry.take(1) =~= m0.push(entry[0]));
            }
        }
        assert(result@ == with_lines_for(start, repo@, entry.take(added as int)));
    }
    let mut i: usize = 0;
    while i < lines.len()
        invariant
            i <= lines.len(),
            lines.len() > 0 ==> added == 1,
            lines.len() == 0 ==> added as int == entry.len(),
            entry == status_entry(ss@, dh@, strs(lines), only_modified),
            result@ == with_lines_for(start, repo@, entry.take(added + i)),
        decreases lines.len() - i,
    {
        let ghost before = result@;
        result.add_repo_message(&repo, lines[i].clone());
        proof {
            let r = repo@;
            assert(entry[added + i] == lines@[i as int]@);
            assert(entry.take(added + i + 1) =~= entry.take(added + i).push(lines@[i as int]@));
            if start.repo_messages.dom().contains(r) {
                let m0 = start.repo_messages[r];
                assert(m0 + entry.take(added + i + 1) =~= (m0 + entry.take(added + i)).push(
                    lines@[i as int]@,
                ));
                assert(before.repo_messages.dom().contains(r));
                assert(before.repo_messages[r] == m0 + entry.take(added + i));
                assert(before.repo_messages.insert(r, before.repo_messages[r].push(lines@[i as int]@))
                    =~= start.repo_messages.insert(r, m0 + entry.take(added + i + 1)));
            }
        }
        i += 1;
    }
    proof {
        assert(entry.take(added + i) =~= entry);
    }
}

/// `s` cut into consecutive pieces of `size` items; the last may be shorter.
pub open spec fn chunked<T>(s: Seq<T>, size: nat) -> Seq<Seq<T>>
    decreases s.len(),
{
    if s.len() == 0 || size == 0 {
        Seq::empty()
    } else if s.len() <= size {
        seq![s]
    } else {
        seq![s.take(size as int)] + chunked(s.skip(size as int), size)
    }
}

/// The pieces one after the other.
pub open spec fn flattened<T>(parts: Seq<Seq<T>>) -> Seq<T>
    decreases parts.len(),
{
    if parts.len() == 0 {
        Seq::empty()
    } else {
        parts[0] + flattened(parts.drop_first())
    }
}

/// Cutting into pieces loses and repeats nothing: the pieces, one after the
/// other, are the items.
pub proof fn law_chunks_cover<T>(s: Seq<T>, size: nat)
    requires
        size > 0,
    ensures
        flattened(chunked(s, size)) == s,
    decreases s.len(),
{
    if s.len() == 0 {
        assert(chunked(s, size) =~= Seq::<Seq<T>>::empty());
        assert(s =~= Seq::<T>::empty());
    } else if s.len() <= size {
        let c = chunked(s, size);
        assert(c.drop_first() =~= Seq::<Seq<T>>::empty());
        assert(flattened(c.drop_first()) == Seq::<T>::empty());
        assert(flattened(c) == c[0] + flattened(c.drop_first()));
        assert(s + Seq::<T>::empty() =~= s);
    } else {
        let rest = s.skip(size as int);
        law_chunks_cover(rest, size);
        let c = chunked(s, size);
        assert(c.drop_first() =~= chunked(rest, size));
        assert(flattened(c) == c[0] + flattened(c.drop_first()));
        assert(s.take(size as int) + rest =~= s);
    }
}

/// The items of `v` cut into consecutive pieces of `size` items, the last of
/// which may be shorter.
pub fn chunks<T: Copy>(v: &Vec<T>, size: usize) -> (r: Vec<Vec<T>>)
    requires
        size > 0,
    ensures
        r@.map_values(|c: Vec<T>| c@) == chunked(v@, size as nat),
{
    let mut r: Vec<Vec<T>> = Vec::new();
    let mut start: usize = 0;
    assert(v@.skip(0) =~= v@);
    while start < v.len()
        invariant
            size > 0,
            start <= v.len(),
            chunked(v@, size as nat) == r@.map_values(|c: Vec<T>| c@) + chunked(
                v@.skip(start as int),
                size as nat,
            ),
        decreases v.len() - start,
    {
        let end = if v.len() - start <= size {
            v.len()
        } else {
            start + size
        };
        let mut piece: Vec<T> = Vec::new();
        let mut k = start;
        while k < end
            invariant
                start <= k <= end <= v.len(),
                piece@ == v@.subrange(start as int, k as int),
            decreases end - k,
        {
            piece.push(v[k]);
            assert(v@.subrange(start as int, k + 1) =~= v@.subrange(start as int, k as int).push(
                v@[k as int],
            ));
            k += 1;
        }
        let ghost prev = r@.map_values(|c: Vec<T>| c@);
        let ghost rest = v@.skip(start as int);
        r.push(piece);
        proof {
            assert(r@.map_values(|c: Vec<T>| c@) =~= prev.push(piece@));
            if v.len() - start <= size {
                assert(piece@ =~= rest);
                assert(v@.skip(end as int) =~= Seq::<T>::empty());
                assert(chunked(rest, size as nat) == seq![rest]);
            } else {
                assert(piece@ =~= rest.take(size as int));
                assert(rest.skip(size as int) =~= v@.skip(end as int));
            }
            assert(prev + chunked(rest, size as nat) =~= prev.push(piece@) + chunked(
                v@.skip(end as int),
                size as nat,
            ));
        }
        start = end;
    }
    assert(v@.skip(start as int) =~= Seq::<T>::empty());
    assert(r@.map_values(|c: Vec<T>| c@) + Seq::<Seq<T>>::empty() =~= r@.map_values(
        |c: Vec<T>| c@,
    ));
    r
}

/// The indices of the repos, from 0, cut into pieces, one per worker: each
/// piece has as many indices as there are repos per worker, rounded down.
pub fn repo_chunks(n_repos: usize, thread_count: usize) -> (r: Vec<Vec<i32>>)
    requires
        0 < thread_count < n_repos,
        n_repos <= i32::MAX,
    ensures
        r@.map_values(|c: Vec<i32>| c@) == chunked(
            Seq::new(n_repos as nat, |i: int| i as i32),
            (n_repos / thread_count) as nat,
        ),
{
    let mut ids: Vec<i32> = Vec::new();
    let mut i: usize = 0;
    while i < n_repos
        invariant
            i <= n_repos <= i32::MAX,
            ids@ == Seq::new(i as nat, |j: int| j as i32),
        decreases n_repos - i,
    {
        ids.push(i as i32);
        assert(ids@ =~= Seq::new((i + 1) as nat, |j: int| j as i32));
        i += 1;
    }
    assert(n_repos / thread_count >= 1) by (nonlinear_arith)
        requires
            0 < thread_count < n_repos,
    ;
    chunks(&ids, n_repos / thread_count)
}

} // verus!
