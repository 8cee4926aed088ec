//! Plain text of a line that may carry ANSI escape sequences.

use vstd::prelude::*;
use vstd::std_specs::iter::IteratorSpec;
use vstd::string::*;

verus! {

/// Where a left-to-right scan of a line stands.
#[derive(Clone, Copy, PartialEq, Eq, Structural, Debug)]
pub enum Scan {
    /// In ordinary text.
    Text,
    /// Just behind an escape character.
    Escape,
    /// Inside a control sequence, behind `ESC [`.
    Sequence,
}

/// The escape character.
pub open spec fn is_escape(c: char) -> bool {
    c == '\x1b'
}

/// A character that ends a control sequence: `@` to `~`.
pub open spec fn is_final(c: char) -> bool {
    0x40 <= c as u32 <= 0x7e
}

/// The state of the scan behind `c`.
pub open spec fn scan_step(state: Scan, c: char) -> Scan {
    match state {
        Scan::Text => if is_escape(c) {
            Scan::Escape
        } else {
            Scan::Text
        },
        Scan::Escape => if c == '[' {
            Scan::Sequence
        } else {
            Scan::Text
        },
        Scan::Sequence => if is_final(c) {
            Scan::Text
        } else {
            Scan::Sequence
        },
    }
}

/// Whether `c`, read in `state`, belongs to the plain text.
pub open spec fn is_plain(state: Scan, c: char) -> bool {
    state == Scan::Text && !is_escape(c)
}

/// The plain text of `s` when the scan enters it in `state`.
pub open spec fn strip_from(s: Seq<char>, state: Scan) -> Seq<char>
    decreases s.len(),
{
    if s.len() == 0 {
        Seq::<char>::empty()
    } else {
        let rest = strip_from(s.drop_first(), scan_step(state, s[0]));
        if is_plain(state, s[0]) {
            seq![s[0]] + rest
        } else {
            rest
        }
    }
}

/// The plain text of a line: what is left when every escape sequence
/// (`ESC [` up to its final character, or `ESC` and the character behind it)
/// is taken out.
pub open spec fn strip_ansi(s: Seq<char>) -> Seq<char> {
    strip_from(s, Scan::Text)
}

/// The plain text holds no escape character.
pub proof fn lemma_stripped_has_no_escape(s: Seq<char>, state: Scan)
    ensures
        forall|i: int| 0 <= i < strip_from(s, state).len() ==> !is_escape(#[trigger] strip_from(s, state)[i]),
    decreases s.len(),
{
    if s.len() > 0 {
        let rest = strip_from(s.drop_first(), scan_step(state, s[0]));
        lemma_stripped_has_no_escape(s.drop_first(), scan_step(state, s[0]));
        assert forall|i: int| 0 <= i < strip_from(s, state).len() implies !is_escape(
            #[trigger] strip_from(s, state)[i],
        ) by {
            if is_plain(state, s[0]) && i > 0 {
                assert(strip_from(s, state)[i] == rest[i - 1]);
            }
        }
    }
}

/// Text without an escape character is its own plain text.
pub proof fn lemma_plain_text_unchanged(s: Seq<char>)
    requires
        forall|i: int| 0 <= i < s.len() ==> !is_escape(#[trigger] s[i]),
    ensures
        strip_ansi(s) == s,
    decreases s.len(),
{
    if s.len() > 0 {
        lemma_plain_text_unchanged(s.drop_first());
        assert(seq![s[0]] + s.drop_first() =~= s);
    }
}

/// Stripping twice gives what stripping once gives.
pub proof fn lemma_strip_idempotent(s: Seq<char>)
    ensures
        strip_ansi(strip_ansi(s)) == strip_ansi(s),
{
    lemma_stripped_has_no_escape(s, Scan::Text);
    lemma_plain_text_unchanged(strip_ansi(s));
}

/// `String::push`: appends one character to the text.
#[verifier::external_body]
fn push_char(text: &mut String, c: char)
    ensures
        final(text)@ == old(text)@.push(c),
{
    text.push(c)
}

/// A line as it came, together with its plain text.
#[derive(Debug)]
pub struct AnsiString {
    styled: String,
    stripped: String,
}

impl AnsiString {
    /// The text as it came, escape sequences included.
    pub closed spec fn styled(&self) -> Seq<char> {
        self.styled@
    }

    /// The plain text.
    pub closed spec fn stripped(&self) -> Seq<char> {
        self.stripped@
    }

    /// The empty text.
    pub fn new_empty() -> (text: AnsiString)
        ensures
            text.styled() == Seq::<char>::empty(),
            text.stripped() == Seq::<char>::empty(),
    {
        AnsiString { styled: String::new(), stripped: String::new() }
    }

    /// Text taken verbatim: nothing in it is read as an escape sequence.
    pub fn new_string(string: String) -> (text: AnsiString)
        ensures
            text.styled() == string@,
            text.stripped() == string@,
    {
        let stripped = string.clone();
        AnsiString { styled: string, stripped }
    }

    /// The plain text.
    pub fn get_stripped(&self) -> (plain: &str)
        ensures
            plain@ == self.stripped(),
    {
        self.stripped.as_str()
    }

    /// The text as it came.
    pub fn get_styled(&self) -> (styled: &str)
        ensures
            styled@ == self.styled(),
    {
        self.styled.as_str()
    }

    /// Gives up the value for its plain text.
    pub fn into_inner(self) -> (plain: String)
        ensures
            plain@ == self.stripped(),
    {
        self.stripped
    }

}

impl Clone for AnsiString {
    fn clone(&self) -> (copy: AnsiString)
        ensures
            copy.styled() == self.styled(),
            copy.stripped() == self.stripped(),
    {
        AnsiString { styled: self.styled.clone(), stripped: self.stripped.clone() }
    }
}

fn step(state: Scan, c: char) -> (next: Scan)
    ensures
        next == scan_step(state, c),
{
    match state {
        Scan::Text => if c == '\x1b' {
            Scan::Escape
        } else {
            Scan::Text
        },
        Scan::Escape => if c == '[' {
            Scan::Sequence
        } else {
            Scan::Text
        },
        Scan::Sequence => if 0x40 <= c as u32 && c as u32 <= 0x7e {
            Scan::Text
        } else {
            Scan::Sequence
        },
    }
}

/// Reads `text` with its escape sequences interpreted.
pub fn parse_ansi(text: &str) -> (parsed: AnsiString)
    ensures
        parsed.styled() == text@,
        parsed.stripped() == strip_ansi(text@),
{
    let mut stripped = String::new();
    let mut state = Scan::Text;
    proof {
        assert(text@.skip(0) =~= text@);
    }
    for c in it: text.chars()
        invariant
            it.seq() == text@,
            stripped@ + strip_from(text@.skip(it.index() as int), state) =~= strip_ansi(text@),
    {
        proof {
            let tail = text@.skip(it.index() as int);
            assert(tail.drop_first() =~= text@.skip(it.index() + 1));
            assert(tail[0] == c);
            if is_plain(state, c) {
                assert(stripped@.push(c) + strip_from(
                    text@.skip(it.index() + 1),
                    scan_step(state, c),
                ) =~= stripped@ + strip_from(tail, state));
            }
        }
        let keep = match state {
            Scan::Text => c != '\x1b',
            _ => false,
        };
        if keep {
            push_char(&mut stripped, c);
        }
        state = step(state, c);
    }
    proof {
        assert(text@.skip(text@.len() as int) =~= Seq::<char>::empty());
        assert(stripped@ + Seq::<char>::empty() =~= stripped@);
    }
    AnsiString { styled: text.to_owned(), stripped }
}

} // verus!
