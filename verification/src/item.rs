//! One line of input, in the forms that matching, display and output need.

use crate::ansi::{
    is_escape, lemma_stripped_has_no_escape, parse_ansi, strip_ansi, AnsiString, Scan,
};
use crate::field::{
    byte_len, delimiter_spans, matching_ranges, parse_matching_fields, parse_transform_fields,
    ranges_in_text, transform_text, FieldRange,
};
use regex::Regex;
use std::borrow::Cow;
use vstd::prelude::*;
use vstd::string::*;
use vstd::utf8::*;

verus! {

/// The text that an item matches against: the transformed text where there is
/// one, else the line as it came; read as plain text where ANSI is enabled.
pub open spec fn derived_text(orig: Seq<char>, ansi: bool, transformed: Option<Seq<char>>) -> Seq<
    char,
> {
    let base = match transformed {
        Some(t) => t,
        None => orig,
    };
    if ansi {
        strip_ansi(base)
    } else {
        base
    }
}

/// The text that an item hands out when it is accepted: the line as it came,
/// never the transformed one; read as plain text where ANSI is enabled.
pub open spec fn output_text(orig: Seq<char>, ansi: bool) -> Seq<char> {
    if ansi {
        strip_ansi(orig)
    } else {
        orig
    }
}

/// The single range that covers a whole text.
pub open spec fn whole_text(text: Seq<char>) -> Seq<(usize, usize)> {
    seq![(0usize, encode_utf8(text).len() as usize)]
}

/// The transformed text of a line, where transform fields are given.
pub open spec fn transformed_text(orig: Seq<char>, trans: Seq<FieldRange>, delimiter: Regex) -> Option<
    Seq<char>,
> {
    if trans.len() > 0 {
        Some(transform_text(delimiter_spans(delimiter, orig), encode_utf8(orig), trans))
    } else {
        None
    }
}

/// The ranges that the matching fields select in a text; none where no
/// matching field is given.
pub open spec fn selected_ranges(text: Seq<char>, matching: Seq<FieldRange>, delimiter: Regex) -> Seq<
    (usize, usize),
> {
    if matching.len() > 0 {
        matching_ranges(delimiter_spans(delimiter, text), encode_utf8(text).len() as int, matching)
    } else {
        Seq::<(usize, usize)>::empty()
    }
}

/// The ranges of a text that are open to matching: those that the matching
/// fields select; the whole text where no matching field is given or the
/// fields select nothing. There is always at least one.
pub open spec fn ranges_of(text: Seq<char>, matching: Seq<FieldRange>, delimiter: Regex) -> Seq<
    (usize, usize),
> {
    let selected = selected_ranges(text, matching, delimiter);
    if selected.len() > 0 {
        selected
    } else {
        whole_text(text)
    }
}

pub open spec fn view_of(text: Option<String>) -> Option<Seq<char>> {
    match text {
        Some(t) => Some(t@),
        None => None,
    }
}

/// Everything that one line of input needs to be matched, shown and handed
/// out.
#[derive(Debug)]
pub struct Item {
    // (number of the run, position within the run)
    index: (usize, usize),
    // what is handed out when the item is accepted
    orig_text: String,
    // what is matched and shown, where it differs from the line as it came
    text: AnsiString,
    matching_ranges: Vec<(usize, usize)>,
    using_transform_fields: bool,
    ansi_enabled: bool,
}

impl Item {
    pub closed spec fn index(&self) -> (usize, usize) {
        self.index
    }

    /// The line as it came.
    pub closed spec fn orig(&self) -> Seq<char> {
        self.orig_text@
    }

    /// The derived representation; empty where none was built.
    pub closed spec fn text_struct(&self) -> AnsiString {
        self.text
    }

    pub closed spec fn ranges(&self) -> Seq<(usize, usize)> {
        self.matching_ranges@
    }

    pub closed spec fn uses_transform(&self) -> bool {
        self.using_transform_fields
    }

    pub closed spec fn ansi(&self) -> bool {
        self.ansi_enabled
    }

    /// Whether a derived representation was built.
    pub open spec fn has_derived(&self) -> bool {
        self.uses_transform() || self.ansi()
    }

    /// The canonical text: what matching and display work on.
    pub open spec fn canonical(&self) -> Seq<char> {
        if self.has_derived() {
            self.text_struct().stripped()
        } else {
            self.orig()
        }
    }

    /// What is handed out when the item is accepted: the plain text of the
    /// whole line where ANSI is enabled (taken from the derived
    /// representation where that was built from the whole line), else the
    /// line as it came.
    pub open spec fn output(&self) -> Seq<char> {
        if self.uses_transform() && self.ansi() {
            strip_ansi(self.orig())
        } else if self.ansi() {
            self.text_struct().stripped()
        } else {
            self.orig()
        }
    }

    /// There is a matching range, every matching range lies in the canonical
    /// text, between character
    /// boundaries, and a derived
    /// representation built from the whole line alone is its plain text.
    pub open spec fn wf(&self) -> bool {
        &&& self.ranges().len() > 0
        &&& ranges_in_text(self.ranges(), encode_utf8(self.canonical()))
        &&& !self.uses_transform() && self.ansi() ==> {
            &&& self.text_struct().stripped() == strip_ansi(self.orig())
            &&& self.text_struct().styled() == self.orig()
        }
        &&& !self.has_derived() ==> {
            &&& self.text_struct().stripped() == Seq::<char>::empty()
            &&& self.text_struct().styled() == Seq::<char>::empty()
        }
    }

    /// Without transform fields and without ANSI the line itself is what is
    /// matched and what is handed out, and no derived representation exists.
    pub proof fn lemma_plain_item(self)
        requires
            self.wf(),
            !self.uses_transform(),
            !self.ansi(),
        ensures
            self.canonical() == self.orig(),
            self.output() == self.orig(),
            !self.has_derived(),
    {
    }

    /// With ANSI and without transform fields the text that is matched is the
    /// line without its escape sequences: it holds no escape character, and
    /// the same text is handed out.
    pub proof fn lemma_ansi_item(self)
        requires
            self.wf(),
            !self.uses_transform(),
            self.ansi(),
        ensures
            self.canonical() == strip_ansi(self.orig()),
            forall|i: int|
                0 <= i < self.canonical().len() ==> !is_escape(#[trigger] self.canonical()[i]),
            self.output() == self.canonical(),
            self.text_struct().styled() == self.orig(),
    {
        lemma_stripped_has_no_escape(self.orig(), Scan::Text);
    }

    /// With transform fields and without ANSI the transformed text is matched
    /// as it stands, and the whole line is handed out, untransformed.
    pub proof fn lemma_transformed_item(self)
        requires
            self.wf(),
            self.uses_transform(),
            !self.ansi(),
        ensures
            self.canonical() == self.text_struct().stripped(),
            self.output() == self.orig(),
    {
    }

    /// An item of a line whose transformed text, if any, is already at
    /// hand. The whole canonical text is open to matching.
    pub fn with_text(
        orig_text: String,
        ansi_enabled: bool,
        transformed: Option<String>,
        index: (usize, usize),
    ) -> (item: Item)
        ensures
            item.wf(),
            item.index() == index,
            item.orig() == orig_text@,
            item.ansi() == ansi_enabled,
            item.uses_transform() == transformed is Some,
            item.canonical() == derived_text(orig_text@, ansi_enabled, view_of(transformed)),
            item.output() == output_text(orig_text@, ansi_enabled),
            item.ranges() == whole_text(item.canonical()),
    {
        let using_transform_fields = transformed.is_some();
        let text = match transformed {
            Some(t) => if ansi_enabled {
                parse_ansi(t.as_str())
            } else {
                AnsiString::new_string(t)
            },
            None => if ansi_enabled {
                parse_ansi(orig_text.as_str())
            } else {
                AnsiString::new_empty()
            },
        };
        let len = if using_transform_fields || ansi_enabled {
            byte_len(text.get_stripped())
        } else {
            byte_len(orig_text.as_str())
        };
        let mut matching_ranges: Vec<(usize, usize)> = Vec::new();
        matching_ranges.push((0, len));
        proof {
            let canonical = derived_text(orig_text@, ansi_enabled, view_of(transformed));
            encode_utf8_valid_utf8(canonical);
            is_char_boundary_start_end_of_seq(encode_utf8(canonical));
        }
        Item { index, orig_text, text, matching_ranges, using_transform_fields, ansi_enabled }
    }

    /// An item of the line `orig_text`. Where `trans_fields` is not empty, the
    /// text that these fields select stands for the line in matching and
    /// display; where `matching_fields` is not empty and selects anything,
    /// only the ranges that these fields select are open to matching, else
    /// the whole canonical text is.
    pub fn new(
        orig_text: Cow<str>,
        ansi_enabled: bool,
        trans_fields: &[FieldRange],
        matching_fields: &[FieldRange],
        delimiter: &Regex,
        index: (usize, usize),
    ) -> (item: Item)
        ensures
            item.wf(),
            item.index() == index,
            item.orig() == orig_text@,
            item.ansi() == ansi_enabled,
            item.uses_transform() == (trans_fields@.len() > 0),
            item.canonical() == derived_text(
                orig_text@,
                ansi_enabled,
                transformed_text(orig_text@, trans_fields@, *delimiter),
            ),
            item.ranges() == ranges_of(item.canonical(), matching_fields@, *delimiter),
            item.ranges().len() > 0,
            item.output() == output_text(orig_text@, ansi_enabled),
            matching_fields@.len() == 0 ==> item.ranges() == whole_text(item.canonical()),
            selected_ranges(item.canonical(), matching_fields@, *delimiter).len() == 0
                ==> item.ranges() == whole_text(item.canonical()),
            trans_fields@.len() == 0 && !ansi_enabled ==> item.canonical() == orig_text@,
            trans_fields@.len() == 0 && ansi_enabled ==> item.canonical() == strip_ansi(
                orig_text@,
            ),
            trans_fields@.len() > 0 && !ansi_enabled ==> item.canonical() == transform_text(
                delimiter_spans(*delimiter, orig_text@),
                encode_utf8(orig_text@),
                trans_fields@,
            ),
    {
        let orig_text: String = match orig_text {
            Cow::Borrowed(line) => line.to_owned(),
            Cow::Owned(line) => line,
        };
        let transformed = if trans_fields.len() > 0 {
            Some(parse_transform_fields(delimiter, orig_text.as_str(), trans_fields))
        } else {
            None
        };
        let mut item = Item::with_text(orig_text, ansi_enabled, transformed, index);
        if matching_fields.len() > 0 {
            let ranges = parse_matching_fields(delimiter, item.get_text(), matching_fields);
            if ranges.len() > 0 {
                item.matching_ranges = ranges;
            }
        }
        item
    }

    /// The canonical text.
    pub fn get_text(&self) -> (text: &str)
        ensures
            text@ == self.canonical(),
    {
        if !self.using_transform_fields && !self.ansi_enabled {
            self.orig_text.as_str()
        } else {
            self.text.get_stripped()
        }
    }

    /// The derived representation, where one was built.
    pub fn get_text_struct(&self) -> (text: Option<&AnsiString>)
        ensures
            text is Some <==> self.has_derived(),
            text is Some ==> *text->0 == self.text_struct(),
    {
        if !self.using_transform_fields && !self.ansi_enabled {
            None
        } else {
            Some(&self.text)
        }
    }

    /// The text to hand out when the item is accepted.
    pub fn get_output_text(&self) -> (out: Cow<'_, str>)
        ensures
            out@ == self.output(),
            self.wf() ==> out@ == output_text(self.orig(), self.ansi()),
    {
        if self.using_transform_fields && self.ansi_enabled {
            let text = parse_ansi(self.orig_text.as_str());
            Cow::Owned(text.into_inner())
        } else if !self.using_transform_fields && self.ansi_enabled {
            Cow::Borrowed(self.text.get_stripped())
        } else {
            Cow::Borrowed(self.orig_text.as_str())
        }
    }

    /// The position of the line within its run.
    pub fn get_index(&self) -> (position: usize)
        ensures
            position == self.index().1,
    {
        self.index.1
    }

    /// The run of the line and its position within the run.
    pub fn get_full_index(&self) -> (index: (usize, usize))
        ensures
            index == self.index(),
    {
        self.index
    }

    /// The byte ranges of the canonical text that are open to matching.
    pub fn get_matching_ranges(&self) -> (ranges: &[(usize, usize)])
        ensures
            ranges@ == self.ranges(),
            self.wf() ==> ranges@.len() > 0,
    {
        self.matching_ranges.as_slice()
    }
}

impl Clone for Item {
    /// A copy that shares nothing with the item it was made from.
    fn clone(&self) -> (copy: Item)
        ensures
            copy.index() == self.index(),
            copy.orig() == self.orig(),
            copy.text_struct().stripped() == self.text_struct().stripped(),
            copy.text_struct().styled() == self.text_struct().styled(),
            copy.ranges() == self.ranges(),
            copy.uses_transform() == self.uses_transform(),
            copy.ansi() == self.ansi(),
            self.wf() ==> copy.wf(),
    {
        let mut matching_ranges: Vec<(usize, usize)> = Vec::new();
        let mut i: usize = 0;
        while i < self.matching_ranges.len()
            invariant
                i <= self.matching_ranges@.len(),
                matching_ranges@ == self.matching_ranges@.take(i as int),
            decreases self.matching_ranges@.len() - i,
        {
            matching_ranges.push(self.matching_ranges[i]);
            proof {
                assert(self.matching_ranges@.take(i + 1) =~= self.matching_ranges@.take(
                    i as int,
                ).push(self.matching_ranges@[i as int]));
            }
            i = i + 1;
        }
        proof {
            assert(self.matching_ranges@.take(i as int) =~= self.matching_ranges@);
        }
        Item {
            index: self.index,
            orig_text: self.orig_text.clone(),
            text: self.text.clone(),
            matching_ranges,
            using_transform_fields: self.using_transform_fields,
            ansi_enabled: self.ansi_enabled,
        }
    }
}

} // verus!
