//! The `info` subcommand: what it says of the git-global installation.

use crate::models::repo::Repo;
use crate::models::result::{empty_messages_for, strs, GitGlobalResult};
use crate::order::views;
use crate::paint::{blue, blue_code, green_underline, green_underline_code, shown_as};
use crate::pieces::{decimal, push_decimal};
use vstd::prelude::*;
use vstd::string::StringExecFns;

verus! {

/// An age given in seconds, as days, hours, minutes and seconds:
/// `{d}d, {h}h, {m}m, {s}s`.
pub open spec fn age_text(secs: nat) -> Seq<char> {
    decimal(secs / 86400) + "d, "@ + decimal((secs % 86400) / 3600) + "h, "@ + decimal(
        (secs % 3600) / 60,
    ) + "m, "@ + decimal(secs % 60) + "s"@
}

/// An age is written as whole days, then the hours (under 24), minutes
/// (under 60) and seconds (under 60) that remain, which add up to the age.
pub proof fn law_age_adds_up(secs: nat)
    ensures
        exists|d: nat, h: nat, m: nat, s: nat|
            h < 24 && m < 60 && s < 60 && d * 86400 + h * 3600 + m * 60 + s == secs
                && #[trigger] age_text(secs) == decimal(d) + "d, "@ + decimal(h) + "h, "@ + decimal(m)
                + "m, "@ + decimal(s) + "s"@,
{
    let d = secs / 86400;
    let h = (secs % 86400) / 3600;
    let m = (secs % 3600) / 60;
    let s = secs % 60;
    assert(h < 24 && m < 60 && s < 60 && d * 86400 + h * 3600 + m * 60 + s == secs) by (nonlinear_arith)
        requires
            d == secs / 86400,
            h == (secs % 86400) / 3600,
            m == (secs % 3600) / 60,
            s == secs % 60,
    ;
    assert(age_text(secs) == decimal(d) + "d, "@ + decimal(h) + "h, "@ + decimal(m) + "m, "@
        + decimal(s) + "s"@);
}

/// The age of a file, given in seconds, as days, hours, minutes and seconds.
pub fn get_age(secs: u64) -> (r: String)
    ensures
        r@ == age_text(secs as nat),
{
    let days = secs / 86400;
    let hours = (secs % 86400) / 3600;
    let mins = (secs % 3600) / 60;
    let rest = secs % 60;
    let mut r = String::new();
    push_decimal(&mut r, days);
    r.append("d, ");
    push_decimal(&mut r, hours);
    r.append("h, ");
    push_decimal(&mut r, mins);
    r.append("m, ");
    push_decimal(&mut r, rest);
    r.append("s");
    r
}

/// `n` copies of `c`.
pub open spec fn repeated(c: char, n: nat) -> Seq<char> {
    Seq::new(n, |i: int| c)
}

/// The messages that describe the installation, up to the ignored patterns.
pub open spec fn info_head(
    version: Seq<char>,
    n_repos: nat,
    basedir: Seq<char>,
    cache_file: Seq<char>,
    age: Option<nat>,
) -> Seq<Seq<char>> {
    seq![
        "git-global "@ + version,
        repeated('=', 11 + version.len()),
        "Number of repos: "@ + decimal(n_repos),
        "Base directory: "@ + basedir,
        "Cache file: "@ + cache_file,
    ] + match age {
        Some(s) => seq!["Cache file age: "@ + age_text(s)],
        None => Seq::empty(),
    } + seq!["Ignored patterns:"@]
}

/// The message that tells how to see the contents of the cache file.
pub open spec fn raw_hint(out: Seq<char>) -> bool {
    exists|a: Seq<char>|
        #![trigger "For contents of cache file pass \""@ + a + "\" flag i.e."@]
        shown_as(a, "raw"@, blue_code()) && out == "For contents of cache file pass \""@ + a
            + "\" flag i.e."@
}

/// Gathers metadata about the git-global installation: its version, the
/// number of repos, the base directory, the cache file and its age in seconds
/// (where known), the ignored patterns, and then either the contents of the
/// cache file, where they are given, or how to ask for them.
pub fn get_results(
    repos: &Vec<Repo>,
    version: &str,
    basedir: &str,
    cache_file: &str,
    age_secs: Option<u64>,
    ignored_patterns: &Vec<String>,
    raw_contents: Option<String>,
) -> (r: GitGlobalResult)
    ensures
        r@.repos == views(repos@),
        r@.repo_messages == empty_messages_for(views(repos@)),
        !r@.pad_repo_output,
        ({
            let head = info_head(
                version@,
                repos@.len(),
                basedir@,
                cache_file@,
                match age_secs {
                    Some(s) => Some(s as nat),
                    None => None,
                },
            ) + strs(*ignored_patterns).map_values(|p: Seq<char>| "  "@ + p);
            match raw_contents {
                Some(c) => r@.messages == head + seq!["Contents of cache file: "@, c@],
                None => r@.messages.len() == head.len() + 2 && r@.messages.take(head.len() as int)
                    == head && raw_hint(r@.messages[head.len() as int]) && shown_as(
                    r@.messages[head.len() + 1int],
                    ">>> git-global info raw"@,
                    green_underline_code(),
                ),
            }
        }),
{
    let mut result = GitGlobalResult::new(repos);
    let ghost start = result@.messages;
    let mut m1 = String::from_str("git-global ");
    m1.append(version);
    result.add_message(m1);
    let mut underline = String::from_str("===========");
    let vc = crate::text::chars_of(version);
    let mut i: usize = 0;
    proof {
        reveal_strlit("===========");
        assert("==========="@ =~= repeated('=', 11));
    }
    while i < vc.len()
        invariant
            i <= vc.len(),
            underline@ == repeated('=', 11 + i as nat),
        decreases vc.len() - i,
    {
        crate::text::push_char(&mut underline, '=');
        assert(underline@ =~= repeated('=', 11 + (i + 1) as nat));
        i += 1;
    }
    result.add_message(underline);
    let mut m3 = String::from_str("Number of repos: ");
    push_decimal(&mut m3, repos.len() as u64);
    result.add_message(m3);
    let mut m4 = String::from_str("Base directory: ");
    m4.append(basedir);
    result.add_message(m4);
    let mut m5 = String::from_str("Cache file: ");
    m5.append(cache_file);
    result.add_message(m5);
    if let Some(secs) = age_secs {
        let mut m6 = String::from_str("Cache file age: ");
        let age = get_age(secs);
        m6.append(age.as_str());
        result.add_message(m6);
    }
    result.add_message(String::from_str("Ignored patterns:"));
    let ghost head0 = result@.messages;
    proof {
        assert(head0 =~= info_head(
            version@,
            repos@.len(),
            basedir@,
            cache_file@,
            match age_secs {
                Some(s) => Some(s as nat),
                None => None,
            },
        ));
    }
    let mut k: usize = 0;
    while k < ignored_patterns.len()
        invariant
            k <= ignored_patterns.len(),
            result@.repos == views(repos@),
            result@.repo_messages == empty_messages_for(views(repos@)),
            !result@.pad_repo_output,
            result@.messages == head0 + strs(*ignored_patterns).take(k as int).map_values(
                |p: Seq<char>| "  "@ + p,
            ),
        decreases ignored_patterns.len() - k,
    {
        let mut m = String::from_str("  ");
        m.append(ignored_patterns[k].as_str());
        result.add_message(m);
        proof {
            assert(strs(*ignored_patterns).take(k + 1) =~= strs(*ignored_patterns).take(
                k as int,
            ).push(ignored_patterns@[k as int]@));
        }
        k += 1;
    }
    assert(strs(*ignored_patterns).take(k as int) =~= strs(*ignored_patterns));
    let ghost head = result@.messages;
    match raw_contents {
        Some(c) => {
            result.add_message(String::from_str("Contents of cache file: "));
            result.add_message(c);
        },
        None => {
            let a = blue("raw");
            let mut m = String::from_str("For contents of cache file pass \"");
            m.append(a.as_str());
            m.append("\" flag i.e.");
            assert(raw_hint(m@));
            result.add_message(m);
            result.add_message(green_underline(">>> git-global info raw"));
            assert(result@.messages.take(head.len() as int) =~= head);
        },
    }
    result
}

} // verus!
