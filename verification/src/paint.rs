//! Terminal colours, written by the `colored` crate.
//!
//! Whether `colored` colours at all is decided by the environment (`NO_COLOR`,
//! `CLICOLOR`, `CLICOLOR_FORCE`, whether standard output is a terminal) or by
//! an override, so each painting below is stated for both outcomes: the text
//! as it is, or the text between the attribute sequence and the reset.

use colored::Colorize;
use vstd::prelude::*;
use vstd::string::StringExecFns;

verus! {

/// The escape sequence that resets all attributes.
pub open spec fn reset_seq() -> Seq<char> {
    seq!['\u{1b}', '[', '0', 'm']
}

/// The escape sequence that sets the attributes `code` (such as `34` for a
/// blue foreground).
pub open spec fn style_seq(code: Seq<char>) -> Seq<char> {
    seq!['\u{1b}', '['] + code + seq!['m']
}

/// `s` with `style` put in again after each reset in it, so that text nested in
/// a painted text keeps the outer attributes after its own reset.
pub open spec fn reapply_after_resets(style: Seq<char>, s: Seq<char>) -> Seq<char>
    decreases s.len(),
{
    if s.len() == 0 {
        s
    } else if s.len() >= 4 && s.take(4) == reset_seq() {
        reset_seq() + style + reapply_after_resets(style, s.skip(4))
    } else {
        seq![s[0]] + reapply_after_resets(style, s.drop_first())
    }
}

/// `s` painted with the attributes `code`.
pub open spec fn painted(code: Seq<char>, s: Seq<char>) -> Seq<char> {
    style_seq(code) + reapply_after_resets(style_seq(code), s) + reset_seq()
}

/// `out` is what painting `s` with `code` may write: `s` itself where colouring
/// is off, `s` painted where it is on.
pub open spec fn shown_as(out: Seq<char>, s: Seq<char>, code: Seq<char>) -> bool {
    out == s || out == painted(code, s)
}

/// A blue foreground.
pub open spec fn blue_code() -> Seq<char> {
    seq!['3', '4']
}

/// A green foreground.
pub open spec fn green_code() -> Seq<char> {
    seq!['3', '2']
}

/// A yellow foreground.
pub open spec fn yellow_code() -> Seq<char> {
    seq!['3', '3']
}

/// Underlined, on a green foreground.
pub open spec fn green_underline_code() -> Seq<char> {
    seq!['4', ';', '3', '2']
}

/// Dimmed.
pub open spec fn dimmed_code() -> Seq<char> {
    seq!['2']
}

/// `Colorize::blue` on `s`, written with `Display`: `colored` writes the
/// attribute sequence `ESC [ 34 m`, the text with that sequence put again after
/// each reset in it, and the reset `ESC [ 0 m`; or the text alone where
/// colouring is off.
#[verifier::external_body]
pub(crate) fn blue(s: &str) -> (r: String)
    ensures
        shown_as(r@, s@, blue_code()),
{
    s.blue().to_string()
}

/// `Colorize::green` on `s`, written with `Display`, as `blue` but with the
/// attributes `32`.
#[verifier::external_body]
pub(crate) fn green(s: &str) -> (r: String)
    ensures
        shown_as(r@, s@, green_code()),
{
    s.green().to_string()
}

/// `Colorize::yellow` on `s`, written with `Display`, as `blue` but with the
/// attributes `33`.
#[verifier::external_body]
pub(crate) fn yellow(s: &str) -> (r: String)
    ensures
        shown_as(r@, s@, yellow_code()),
{
    s.yellow().to_string()
}

/// `Colorize::green` then `Colorize::underline` on `s`, written with
/// `Display`: `colored` puts the style before the colour, so the attributes
/// are `4;32`.
#[verifier::external_body]
pub(crate) fn green_underline(s: &str) -> (r: String)
    ensures
        shown_as(r@, s@, green_underline_code()),
{
    s.green().underline().to_string()
}

/// `Colorize::dimmed` on `s`, written with `Display`, as `blue` but with the
/// attributes `2`.
#[verifier::external_body]
pub(crate) fn dimmed(s: &str) -> (r: String)
    ensures
        shown_as(r@, s@, dimmed_code()),
{
    s.dimmed().to_string()
}

/// `Colorize::yellow` then `Colorize::underline` on `s`, written with
/// `Display`: `colored` puts the style before the colour, so the attributes
/// are `4;33`.
#[verifier::external_body]
pub(crate) fn yellow_underline(s: &str) -> (r: String)
    ensures
        shown_as(r@, s@, yellow_underline_code()),
{
    s.yellow().underline().to_string()
}

/// Underlined, on a yellow foreground.
pub open spec fn yellow_underline_code() -> Seq<char> {
    seq!['4', ';', '3', '3']
}

/// A piece of text to be written: as it is, or painted with the attributes
/// of the second field.
pub enum Part {
    Plain(Seq<char>),
    Painted(Seq<char>, Seq<char>),
}

/// `out` is what may be written for the piece.
pub open spec fn part_shown(out: Seq<char>, part: Part) -> bool {
    match part {
        Part::Plain(t) => out == t,
        Part::Painted(t, code) => shown_as(out, t, code),
    }
}

/// `outs` are what may be written for the pieces, one for one.
pub open spec fn parts_shown(outs: Seq<Seq<char>>, parts: Seq<Part>) -> bool {
    outs.len() == parts.len() && forall|i: int|
        0 <= i < outs.len() ==> part_shown(#[trigger] outs[i], parts[i])
}

/// The texts one after the other.
pub open spec fn joined(outs: Seq<Seq<char>>) -> Seq<char>
    decreases outs.len(),
{
    if outs.len() == 0 {
        Seq::empty()
    } else {
        joined(outs.drop_last()) + outs.last()
    }
}

/// `text` is what may be written for the pieces, one after the other.
pub open spec fn written_as(text: Seq<char>, parts: Seq<Part>) -> bool {
    exists|outs: Seq<Seq<char>>| #[trigger] parts_shown(outs, parts) && text == joined(outs)
}

/// A text being written piece by piece, some pieces painted.
pub struct Painter {
    pub text: String,
    pub parts: Ghost<Seq<Part>>,
    pub outs: Ghost<Seq<Seq<char>>>,
}

impl Painter {
    /// The pieces written so far, and what was written for them, agree.
    pub open spec fn wf(&self) -> bool {
        &&& parts_shown(self.outs@, self.parts@)
        &&& self.text@ == joined(self.outs@)
    }

    /// Nothing written yet.
    pub fn new() -> (r: Painter)
        ensures
            r.wf(),
            r.parts@ == Seq::<Part>::empty(),
    {
        let r = Painter { text: String::new(), parts: Ghost(Seq::empty()), outs: Ghost(Seq::empty()) };
        assert(r.text@ =~= joined(r.outs@));
        r
    }

    fn push(&mut self, out: String, part: Ghost<Part>)
        requires
            old(self).wf(),
            part_shown(out@, part@),
        ensures
            final(self).wf(),
            final(self).parts@ == old(self).parts@.push(part@),
    {
        self.text.append(out.as_str());
        proof {
            let no = self.outs@.push(out@);
            let np = self.parts@.push(part@);
            assert(no.drop_last() =~= self.outs@);
            assert forall|i: int| 0 <= i < no.len() implies part_shown(#[trigger] no[i], np[i]) by {
                if i < self.outs@.len() {
                    assert(no[i] == self.outs@[i]);
                }
            }
            self.outs = Ghost(no);
            self.parts = Ghost(np);
        }
    }

    /// Writes `s` as it is.
    pub fn plain(&mut self, s: &str)
        requires
            old(self).wf(),
        ensures
            final(self).wf(),
            final(self).parts@ == old(self).parts@.push(Part::Plain(s@)),
    {
        self.push(String::from_str(s), Ghost(Part::Plain(s@)));
    }

    /// Writes `s` in yellow.
    pub fn yellow(&mut self, s: &str)
        requires
            old(self).wf(),
        ensures
            final(self).wf(),
            final(self).parts@ == old(self).parts@.push(Part::Painted(s@, yellow_code())),
    {
        self.push(yellow(s), Ghost(Part::Painted(s@, yellow_code())));
    }

    /// Writes `s` underlined, in yellow.
    pub fn yellow_underline(&mut self, s: &str)
        requires
            old(self).wf(),
        ensures
            final(self).wf(),
            final(self).parts@ == old(self).parts@.push(Part::Painted(s@, yellow_underline_code())),
    {
        self.push(yellow_underline(s), Ghost(Part::Painted(s@, yellow_underline_code())));
    }

    /// Writes `s` underlined, in green.
    pub fn green_underline(&mut self, s: &str)
        requires
            old(self).wf(),
        ensures
            final(self).wf(),
            final(self).parts@ == old(self).parts@.push(Part::Painted(s@, green_underline_code())),
    {
        self.push(green_underline(s), Ghost(Part::Painted(s@, green_underline_code())));
    }

    /// What was written.
    pub fn finish(self) -> (r: String)
        requires
            self.wf(),
        ensures
            written_as(r@, self.parts@),
    {
        assert(parts_shown(self.outs@, self.parts@));
        self.text
    }
}

} // verus!
