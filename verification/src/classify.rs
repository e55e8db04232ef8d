//! The table of hidden characters: which characters the analyzer reports,
//! and the name, category, marker and description it reports for each.
use vstd::prelude::*;
use crate::unicode::{control_char, white_space, is_control, is_whitespace};

verus! {

/// What the analyzer reports about a hidden character, as sequences of characters.
pub struct ClassView {
    pub name: Seq<char>,
    pub category: Seq<char>,
    pub marker: Seq<char>,
    pub description: Seq<char>,
}

/// The classification of a hidden character.
#[derive(Debug, Clone, Copy)]
pub struct CharacterClassification {
    pub name: &'static str,
    pub category: &'static str,
    pub marker: &'static str,
    pub description: &'static str,
}

impl View for CharacterClassification {
    type V = ClassView;

    open spec fn view(&self) -> ClassView {
        ClassView {
            name: self.name@,
            category: self.category@,
            marker: self.marker@,
            description: self.description@,
        }
    }
}

/// The view of an optional classification.
pub open spec fn class_view(c: Option<CharacterClassification>) -> Option<ClassView> {
    match c {
        Some(k) => Some(k@),
        None => None,
    }
}

/// A classification in the `control` category.
pub open spec fn control_entry(name: Seq<char>, marker: Seq<char>, description: Seq<char>) -> Option<ClassView> {
    Some(ClassView { name, category: "control"@, marker, description })
}

/// A classification in the `whitespace` category.
pub open spec fn whitespace_entry(name: Seq<char>, marker: Seq<char>, description: Seq<char>) -> Option<ClassView> {
    Some(ClassView { name, category: "whitespace"@, marker, description })
}

/// A classification in the `non-breaking` category.
pub open spec fn no_break_entry(name: Seq<char>, marker: Seq<char>, description: Seq<char>) -> Option<ClassView> {
    Some(ClassView { name, category: "non-breaking"@, marker, description })
}

/// A classification in the `format` category.
pub open spec fn format_marker_entry(name: Seq<char>, marker: Seq<char>, description: Seq<char>) -> Option<ClassView> {
    Some(ClassView { name, category: "format"@, marker, description })
}

/// A classification in the `bidirectional-format` category.
pub open spec fn bidi_entry(name: Seq<char>, marker: Seq<char>, description: Seq<char>) -> Option<ClassView> {
    Some(ClassView { name, category: "bidirectional-format"@, marker, description })
}

/// A classification in the `invisible-letter` category.
pub open spec fn invisible_letter_entry(name: Seq<char>, marker: Seq<char>, description: Seq<char>) -> Option<ClassView> {
    Some(ClassView { name, category: "invisible-letter"@, marker, description })
}

/// The classification of `ch`, or `None` when `ch` is not a hidden character.
/// Characters named in the table are classified as listed; C1 controls,
/// other control characters and other Unicode whitespace fall into
/// catch-all entries; the ASCII space and all other characters are not hidden.
pub open spec fn hidden_class(ch: char) -> Option<ClassView> {
    match ch {
        '\u{0000}' => control_entry("NULL"@, "NUL"@, "String terminator/control character."@),
        '\u{0008}' => control_entry("BACKSPACE"@, "BS"@, "Moves the cursor backward in terminal contexts."@),
        '\u{0009}' => whitespace_entry("CHARACTER TABULATION"@, "TAB"@, "Horizontal tab indentation."@),
        '\u{000A}' => whitespace_entry("LINE FEED"@, "LF"@, "Unix-style line ending."@),
        '\u{000B}' => whitespace_entry("LINE TABULATION"@, "VT"@, "Vertical tab whitespace."@),
        '\u{000C}' => whitespace_entry("FORM FEED"@, "FF"@, "Page-break style whitespace."@),
        '\u{000D}' => whitespace_entry("CARRIAGE RETURN"@, "CR"@, "Classic Mac or Windows line-ending component."@),
        '\u{001B}' => control_entry("ESCAPE"@, "ESC"@, "Begins ANSI terminal escape sequences."@),
        '\u{0020}' => None,
        '\u{007F}' => control_entry("DELETE"@, "DEL"@, "Delete control character."@),
        '\u{0080}'..='\u{009F}' => control_entry("C1 CONTROL"@, "C1"@, "Unicode C1 control character."@),
        '\u{00A0}' => no_break_entry("NO-BREAK SPACE"@, "NBSP"@, "Looks like a space but prevents line wrapping."@),
        '\u{00AD}' => format_marker_entry("SOFT HYPHEN"@, "SHY"@, "Invisible unless a line breaks at this point."@),
        '\u{034F}' => format_marker_entry("COMBINING GRAPHEME JOINER"@, "CGJ"@, "Affects combining mark ordering and rendering."@),
        '\u{061C}' => bidi_entry("ARABIC LETTER MARK"@, "ALM"@, "Bidirectional text formatting marker."@),
        '\u{115F}' => invisible_letter_entry("HANGUL CHOSEONG FILLER"@, "HCF"@, "Invisible Hangul filler character."@),
        '\u{1160}' => invisible_letter_entry("HANGUL JUNGSEONG FILLER"@, "HJF"@, "Invisible Hangul filler character."@),
        '\u{1680}' => whitespace_entry("OGHAM SPACE MARK"@, "OSM"@, "Unicode space separator."@),
        '\u{180E}' => format_marker_entry("MONGOLIAN VOWEL SEPARATOR"@, "MVS"@, "Legacy formatting character that may render invisibly."@),
        '\u{2000}' => whitespace_entry("EN QUAD"@, "ENQ"@, "Typography-width space."@),
        '\u{2001}' => whitespace_entry("EM QUAD"@, "EMQ"@, "Typography-width space."@),
        '\u{2002}' => whitespace_entry("EN SPACE"@, "ENSP"@, "Typography-width space."@),
        '\u{2003}' => whitespace_entry("EM SPACE"@, "EMSP"@, "Typography-width space."@),
        '\u{2004}' => whitespace_entry("THREE-PER-EM SPACE"@, "3/MSP"@, "Typography-width space."@),
        '\u{2005}' => whitespace_entry("FOUR-PER-EM SPACE"@, "4/MSP"@, "Typography-width space."@),
        '\u{2006}' => whitespace_entry("SIX-PER-EM SPACE"@, "6/MSP"@, "Typography-width space."@),
        '\u{2007}' => no_break_entry("FIGURE SPACE"@, "FIGSP"@, "Digit-width non-breaking space."@),
        '\u{2008}' => whitespace_entry("PUNCTUATION SPACE"@, "PSP"@, "Punctuation-width space."@),
        '\u{2009}' => whitespace_entry("THIN SPACE"@, "THSP"@, "Narrow typography space."@),
        '\u{200A}' => whitespace_entry("HAIR SPACE"@, "HSP"@, "Very narrow typography space."@),
        '\u{200B}' => format_marker_entry("ZERO WIDTH SPACE"@, "ZWSP"@, "Invisible break opportunity."@),
        '\u{200C}' => format_marker_entry("ZERO WIDTH NON-JOINER"@, "ZWNJ"@, "Prevents adjacent characters from joining."@),
        '\u{200D}' => format_marker_entry("ZERO WIDTH JOINER"@, "ZWJ"@, "Joins adjacent characters; common in emoji sequences."@),
        '\u{200E}' => bidi_entry("LEFT-TO-RIGHT MARK"@, "LRM"@, "Bidirectional text formatting marker."@),
        '\u{200F}' => bidi_entry("RIGHT-TO-LEFT MARK"@, "RLM"@, "Bidirectional text formatting marker."@),
        '\u{2028}' => whitespace_entry("LINE SEPARATOR"@, "LS"@, "Unicode line separator."@),
        '\u{2029}' => whitespace_entry("PARAGRAPH SEPARATOR"@, "PS"@, "Unicode paragraph separator."@),
        '\u{202A}' => bidi_entry("LEFT-TO-RIGHT EMBEDDING"@, "LRE"@, "Bidirectional text formatting marker."@),
        '\u{202B}' => bidi_entry("RIGHT-TO-LEFT EMBEDDING"@, "RLE"@, "Bidirectional text formatting marker."@),
        '\u{202C}' => bidi_entry("POP DIRECTIONAL FORMATTING"@, "PDF"@, "Ends bidirectional embedding or override."@),
        '\u{202D}' => bidi_entry("LEFT-TO-RIGHT OVERRIDE"@, "LRO"@, "Forces left-to-right ordering."@),
        '\u{202E}' => bidi_entry("RIGHT-TO-LEFT OVERRIDE"@, "RLO"@, "Forces right-to-left ordering and can disguise text."@),
        '\u{202F}' => no_break_entry("NARROW NO-BREAK SPACE"@, "NNBSP"@, "Narrow non-breaking space."@),
        '\u{205F}' => whitespace_entry("MEDIUM MATHEMATICAL SPACE"@, "MMSP"@, "Mathematical typography space."@),
        '\u{2060}' => no_break_entry("WORD JOINER"@, "WJ"@, "Invisible character that prevents line breaks."@),
        '\u{2061}' => format_marker_entry("FUNCTION APPLICATION"@, "FA"@, "Invisible mathematical formatting operator."@),
        '\u{2062}' => format_marker_entry("INVISIBLE TIMES"@, "IT"@, "Invisible mathematical multiplication operator."@),
        '\u{2063}' => format_marker_entry("INVISIBLE SEPARATOR"@, "IS"@, "Invisible mathematical separator."@),
        '\u{2064}' => format_marker_entry("INVISIBLE PLUS"@, "IP"@, "Invisible mathematical addition operator."@),
        '\u{2066}' => bidi_entry("LEFT-TO-RIGHT ISOLATE"@, "LRI"@, "Bidirectional text isolation marker."@),
        '\u{2067}' => bidi_entry("RIGHT-TO-LEFT ISOLATE"@, "RLI"@, "Bidirectional text isolation marker."@),
        '\u{2068}' => bidi_entry("FIRST STRONG ISOLATE"@, "FSI"@, "Bidirectional text isolation marker."@),
        '\u{2069}' => bidi_entry("POP DIRECTIONAL ISOLATE"@, "PDI"@, "Ends a bidirectional isolate."@),
        '\u{2800}' => whitespace_entry("BRAILLE PATTERN BLANK"@, "BLANK"@, "Blank Braille pattern that appears empty."@),
        '\u{3000}' => whitespace_entry("IDEOGRAPHIC SPACE"@, "IDSP"@, "Full-width CJK space."@),
        '\u{3164}' => invisible_letter_entry("HANGUL FILLER"@, "HF"@, "Invisible Hangul filler character."@),
        '\u{FEFF}' => no_break_entry("ZERO WIDTH NO-BREAK SPACE"@, "BOM"@, "Byte order mark; often appears as an invisible prefix."@),
        '\u{FFA0}' => invisible_letter_entry("HALFWIDTH HANGUL FILLER"@, "HHF"@, "Invisible Hangul filler character."@),
        _ => if control_char(ch) {
            control_entry("CONTROL CHARACTER"@, "CTRL"@, "Unicode control character."@)
        } else if white_space(ch) {
            whitespace_entry(
                "UNICODE WHITESPACE"@,
                "WS"@,
                "Whitespace that may not render like a regular ASCII space."@,
            )
        } else {
            None
        },
    }
}

/// Whether the analyzer reports `ch`.
pub open spec fn hidden(ch: char) -> bool {
    hidden_class(ch) is Some
}

/// Builds a classification in the `control` category.
pub fn control(
    name: &'static str,
    marker: &'static str,
    description: &'static str,
) -> (res: Option<CharacterClassification>)
    ensures
        class_view(res) == control_entry(name@, marker@, description@),
{
    Some(CharacterClassification { name, category: "control", marker, description })
}

/// Builds a classification in the `whitespace` category.
pub fn whitespace(
    name: &'static str,
    marker: &'static str,
    description: &'static str,
) -> (res: Option<CharacterClassification>)
    ensures
        class_view(res) == whitespace_entry(name@, marker@, description@),
{
    Some(CharacterClassification { name, category: "whitespace", marker, description })
}

/// Builds a classification in the `non-breaking` category.
pub fn no_break(
    name: &'static str,
    marker: &'static str,
    description: &'static str,
) -> (res: Option<CharacterClassification>)
    ensures
        class_view(res) == no_break_entry(name@, marker@, description@),
{
    Some(CharacterClassification { name, category: "non-breaking", marker, description })
}

/// Builds a classification in the `format` category.
pub fn format_marker(
    name: &'static str,
    marker: &'static str,
    description: &'static str,
) -> (res: Option<CharacterClassification>)
    ensures
        class_view(res) == format_marker_entry(name@, marker@, description@),
{
    Some(CharacterClassification { name, category: "format", marker, description })
}

/// Builds a classification in the `bidirectional-format` category.
pub fn bidi(
    name: &'static str,
    marker: &'static str,
    description: &'static str,
) -> (res: Option<CharacterClassification>)
    ensures
        class_view(res) == bidi_entry(name@, marker@, description@),
{
    Some(CharacterClassification { name, category: "bidirectional-format", marker, description })
}

/// Builds a classification in the `invisible-letter` category.
pub fn invisible_letter(
    name: &'static str,
    marker: &'static str,
    description: &'static str,
) -> (res: Option<CharacterClassification>)
    ensures
        class_view(res) == invisible_letter_entry(name@, marker@, description@),
{
    Some(CharacterClassification { name, category: "invisible-letter", marker, description })
}

/// Classifies `ch` as a hidden character, or returns `None`.
pub fn classify_hidden_character(ch: char) -> (res: Option<CharacterClassification>)
    ensures
        class_view(res) == hidden_class(ch),
{
    match ch {
        '\u{0000}' => control("NULL", "NUL", "String terminator/control character."),
        '\u{0008}' => control("BACKSPACE", "BS", "Moves the cursor backward in terminal contexts."),
        '\u{0009}' => whitespace("CHARACTER TABULATION", "TAB", "Horizontal tab indentation."),
        '\u{000A}' => whitespace("LINE FEED", "LF", "Unix-style line ending."),
        '\u{000B}' => whitespace("LINE TABULATION", "VT", "Vertical tab whitespace."),
        '\u{000C}' => whitespace("FORM FEED", "FF", "Page-break style whitespace."),
        '\u{000D}' => whitespace("CARRIAGE RETURN", "CR", "Classic Mac or Windows line-ending component."),
        '\u{001B}' => control("ESCAPE", "ESC", "Begins ANSI terminal escape sequences."),
        '\u{0020}' => None,
        '\u{007F}' => control("DELETE", "DEL", "Delete control character."),
        '\u{0080}'..='\u{009F}' => control("C1 CONTROL", "C1", "Unicode C1 control character."),
        '\u{00A0}' => no_break("NO-BREAK SPACE", "NBSP", "Looks like a space but prevents line wrapping."),
        '\u{00AD}' => format_marker("SOFT HYPHEN", "SHY", "Invisible unless a line breaks at this point."),
        '\u{034F}' => format_marker("COMBINING GRAPHEME JOINER", "CGJ", "Affects combining mark ordering and rendering."),
        '\u{061C}' => bidi("ARABIC LETTER MARK", "ALM", "Bidirectional text formatting marker."),
        '\u{115F}' => invisible_letter("HANGUL CHOSEONG FILLER", "HCF", "Invisible Hangul filler character."),
        '\u{1160}' => invisible_letter("HANGUL JUNGSEONG FILLER", "HJF", "Invisible Hangul filler character."),
        '\u{1680}' => whitespace("OGHAM SPACE MARK", "OSM", "Unicode space separator."),
        '\u{180E}' => format_marker("MONGOLIAN VOWEL SEPARATOR", "MVS", "Legacy formatting character that may render invisibly."),
        '\u{2000}' => whitespace("EN QUAD", "ENQ", "Typography-width space."),
        '\u{2001}' => whitespace("EM QUAD", "EMQ", "Typography-width space."),
        '\u{2002}' => whitespace("EN SPACE", "ENSP", "Typography-width space."),
        '\u{2003}' => whitespace("EM SPACE", "EMSP", "Typography-width space."),
        '\u{2004}' => whitespace("THREE-PER-EM SPACE", "3/MSP", "Typography-width space."),
        '\u{2005}' => whitespace("FOUR-PER-EM SPACE", "4/MSP", "Typography-width space."),
        '\u{2006}' => whitespace("SIX-PER-EM SPACE", "6/MSP", "Typography-width space."),
        '\u{2007}' => no_break("FIGURE SPACE", "FIGSP", "Digit-width non-breaking space."),
        '\u{2008}' => whitespace("PUNCTUATION SPACE", "PSP", "Punctuation-width space."),
        '\u{2009}' => whitespace("THIN SPACE", "THSP", "Narrow typography space."),
        '\u{200A}' => whitespace("HAIR SPACE", "HSP", "Very narrow typography space."),
        '\u{200B}' => format_marker("ZERO WIDTH SPACE", "ZWSP", "Invisible break opportunity."),
        '\u{200C}' => format_marker("ZERO WIDTH NON-JOINER", "ZWNJ", "Prevents adjacent characters from joining."),
        '\u{200D}' => format_marker("ZERO WIDTH JOINER", "ZWJ", "Joins adjacent characters; common in emoji sequences."),
        '\u{200E}' => bidi("LEFT-TO-RIGHT MARK", "LRM", "Bidirectional text formatting marker."),
        '\u{200F}' => bidi("RIGHT-TO-LEFT MARK", "RLM", "Bidirectional text formatting marker."),
        '\u{2028}' => whitespace("LINE SEPARATOR", "LS", "Unicode line separator."),
        '\u{2029}' => whitespace("PARAGRAPH SEPARATOR", "PS", "Unicode paragraph separator."),
        '\u{202A}' => bidi("LEFT-TO-RIGHT EMBEDDING", "LRE", "Bidirectional text formatting marker."),
        '\u{202B}' => bidi("RIGHT-TO-LEFT EMBEDDING", "RLE", "Bidirectional text formatting marker."),
        '\u{202C}' => bidi("POP DIRECTIONAL FORMATTING", "PDF", "Ends bidirectional embedding or override."),
        '\u{202D}' => bidi("LEFT-TO-RIGHT OVERRIDE", "LRO", "Forces left-to-right ordering."),
        '\u{202E}' => bidi("RIGHT-TO-LEFT OVERRIDE", "RLO", "Forces right-to-left ordering and can disguise text."),
        '\u{202F}' => no_break("NARROW NO-BREAK SPACE", "NNBSP", "Narrow non-breaking space."),
        '\u{205F}' => whitespace("MEDIUM MATHEMATICAL SPACE", "MMSP", "Mathematical typography space."),
        '\u{2060}' => no_break("WORD JOINER", "WJ", "Invisible character that prevents line breaks."),
        '\u{2061}' => format_marker("FUNCTION APPLICATION", "FA", "Invisible mathematical formatting operator."),
        '\u{2062}' => format_marker("INVISIBLE TIMES", "IT", "Invisible mathematical multiplication operator."),
        '\u{2063}' => format_marker("INVISIBLE SEPARATOR", "IS", "Invisible mathematical separator."),
        '\u{2064}' => format_marker("INVISIBLE PLUS", "IP", "Invisible mathematical addition operator."),
        '\u{2066}' => bidi("LEFT-TO-RIGHT ISOLATE", "LRI", "Bidirectional text isolation marker."),
        '\u{2067}' => bidi("RIGHT-TO-LEFT ISOLATE", "RLI", "Bidirectional text isolation marker."),
        '\u{2068}' => bidi("FIRST STRONG ISOLATE", "FSI", "Bidirectional text isolation marker."),
        '\u{2069}' => bidi("POP DIRECTIONAL ISOLATE", "PDI", "Ends a bidirectional isolate."),
        '\u{2800}' => whitespace("BRAILLE PATTERN BLANK", "BLANK", "Blank Braille pattern that appears empty."),
        '\u{3000}' => whitespace("IDEOGRAPHIC SPACE", "IDSP", "Full-width CJK space."),
        '\u{3164}' => invisible_letter("HANGUL FILLER", "HF", "Invisible Hangul filler character."),
        '\u{FEFF}' => no_break("ZERO WIDTH NO-BREAK SPACE", "BOM", "Byte order mark; often appears as an invisible prefix."),
        '\u{FFA0}' => invisible_letter("HALFWIDTH HANGUL FILLER", "HHF", "Invisible Hangul filler character."),
        _ => if is_control(ch) {
            control("CONTROL CHARACTER", "CTRL", "Unicode control character.")
        } else if is_whitespace(ch) {
            whitespace(
                "UNICODE WHITESPACE",
                "WS",
                "Whitespace that may not render like a regular ASCII space.",
            )
        } else {
            None
        },
    }
}

/// Printable ASCII characters, the space through `~`, are never reported.
pub proof fn law_printable_ascii_not_hidden(c: char)
    requires
        0x20 <= (c as u32) <= 0x7E,
    ensures
        !hidden(c),
{
}

/// Every character with the Unicode `White_Space` property other than the
/// ASCII space, and every control character, is reported.
pub proof fn law_whitespace_and_controls_hidden(c: char)
    requires
        control_char(c) || (white_space(c) && c != ' '),
    ensures
        hidden(c),
{
}

/// `ch` is reported in the category `category`.
pub open spec fn in_category(ch: char, category: Seq<char>) -> bool {
    match hidden_class(ch) {
        Some(k) => k.category == category,
        None => false,
    }
}

/// The members of each category, by code point: the bidirectional
/// formatting marks (ALM, LRM, RLM, the embeddings and overrides U+202A to
/// U+202E, the isolates U+2066 to U+2069); the zero-width and other
/// invisible format characters; the invisible Hangul fillers; the
/// non-breaking spaces; every control character but the whitespace controls
/// U+0009 to U+000D; and every other `White_Space` character but the ASCII
/// space, with the blank Braille pattern. Nothing else is reported.
pub proof fn law_category_members(c: char)
    ensures
        ({ let u = c as u32; in_category(c, "bidirectional-format"@) <==> (u == 0x061C || u == 0x200E || u == 0x200F || (0x202A <= u && u <= 0x202E) || (0x2066 <= u && u <= 0x2069)) }),
        ({ let u = c as u32; in_category(c, "format"@) <==> (u == 0x00AD || u == 0x034F || u == 0x180E || (0x200B <= u && u <= 0x200D) || (0x2061 <= u && u <= 0x2064)) }),
        ({ let u = c as u32; in_category(c, "invisible-letter"@) <==> (u == 0x115F || u == 0x1160 || u == 0x3164 || u == 0xFFA0) }),
        ({ let u = c as u32; in_category(c, "non-breaking"@) <==> (u == 0x00A0 || u == 0x2007 || u == 0x202F || u == 0x2060 || u == 0xFEFF) }),
        ({ let u = c as u32; in_category(c, "control"@) <==> (control_char(c) && !(0x09 <= u && u <= 0x0D)) }),
        ({ let u = c as u32; in_category(c, "whitespace"@) <==> ((white_space(c) && u != 0x20 && u != 0x85 && u != 0xA0 && u != 0x2007 && u != 0x202F) || u == 0x2800) }),
        ({ let u = c as u32; hidden(c) <==> (in_category(c, "bidirectional-format"@) || in_category(c, "format"@) || in_category(c, "invisible-letter"@) || in_category(c, "non-breaking"@) || in_category(c, "control"@) || in_category(c, "whitespace"@)) }),
{
    reveal_strlit("bidirectional-format");
    reveal_strlit("format");
    reveal_strlit("invisible-letter");
    reveal_strlit("non-breaking");
    reveal_strlit("control");
    reveal_strlit("whitespace");
    assert("bidirectional-format"@.len() == 20);
    assert("format"@.len() == 6);
    assert("invisible-letter"@.len() == 16);
    assert("non-breaking"@.len() == 12);
    assert("control"@.len() == 7);
    assert("whitespace"@.len() == 10);
}

} // verus!
