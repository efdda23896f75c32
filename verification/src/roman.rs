//! Roman numerals as they are written: the parts of a chord's symbol, the
//! letter case of a numeral and the symbols of the qualities.

use vstd::prelude::*;
use crate::lists::TagList;
use crate::text::{
    to_lowercase, to_uppercase, lowercase_of, uppercase_of, is_uppercase, is_lowercase,
    is_alphabetic, char_is_uppercase, char_is_lowercase, char_is_alphabetic, chars_of, push_char,
};

verus! {

/// The letter case of a Roman numeral.
#[derive(Debug, Clone, Copy, PartialEq, Eq, Structural)]
pub enum RomanCase {
    Upper,
    Lower,
}

impl RomanCase {
    /// The numeral in this case.
    pub fn apply(&self, numeral: &str) -> (r: String)
        ensures
            r@ == match self {
                RomanCase::Upper => uppercase_of(numeral@),
                RomanCase::Lower => lowercase_of(numeral@),
            },
    {
        match self {
            RomanCase::Upper => to_uppercase(numeral),
            RomanCase::Lower => to_lowercase(numeral),
        }
    }
}

/// The quality of a chord, as its symbol shows it.
#[derive(Debug, PartialEq, Eq)]
pub enum QualityType {
    Major,
    Minor,
    Diminished,
    HalfDiminished,
    Augmented,
    MajorSeventh,
    Custom(String),
}

impl Clone for QualityType {
    fn clone(&self) -> (r: Self)
        ensures
            r == *self,
    {
        match self {
            QualityType::Major => QualityType::Major,
            QualityType::Minor => QualityType::Minor,
            QualityType::Diminished => QualityType::Diminished,
            QualityType::HalfDiminished => QualityType::HalfDiminished,
            QualityType::Augmented => QualityType::Augmented,
            QualityType::MajorSeventh => QualityType::MajorSeventh,
            QualityType::Custom(s) => QualityType::Custom(s.clone()),
        }
    }
}

impl QualityType {
    /// The symbol of the quality; a custom quality is its own symbol.
    pub open spec fn symbol_of(self) -> Seq<char> {
        match self {
            QualityType::Major => ""@,
            QualityType::Minor => "m"@,
            QualityType::Diminished => "°"@,
            QualityType::HalfDiminished => "ø"@,
            QualityType::Augmented => "+"@,
            QualityType::MajorSeventh => "maj"@,
            QualityType::Custom(s) => s@,
        }
    }

    /// The case of the numeral: lower for minor, diminished and half
    /// diminished, upper for everything else.
    pub open spec fn case_of(self) -> RomanCase {
        match self {
            QualityType::Minor | QualityType::Diminished | QualityType::HalfDiminished => {
                RomanCase::Lower
            },
            _ => RomanCase::Upper,
        }
    }

    /// The symbol of the quality.
    pub fn symbol(&self) -> (r: &str)
        ensures
            r@ == self.symbol_of(),
    {
        match self {
            QualityType::Major => "",
            QualityType::Minor => "m",
            QualityType::Diminished => "°",
            QualityType::HalfDiminished => "ø",
            QualityType::Augmented => "+",
            QualityType::MajorSeventh => "maj",
            QualityType::Custom(s) => s.as_str(),
        }
    }

    /// The case of the numeral that goes with the quality.
    pub fn roman_case(&self) -> (r: RomanCase)
        ensures
            r == self.case_of(),
    {
        match self {
            QualityType::Major | QualityType::Augmented | QualityType::MajorSeventh => {
                RomanCase::Upper
            },
            QualityType::Minor | QualityType::Diminished | QualityType::HalfDiminished => {
                RomanCase::Lower
            },
            QualityType::Custom(_) => RomanCase::Upper,
        }
    }
}

/// The parts of a chord's symbol in Roman numerals.
#[derive(Debug, PartialEq)]
pub struct RomanNumeralGraphic {
    /// The numeral with its extension, such as `V7`.
    pub symbol: String,
    /// The figured bass, such as `65`.
    pub figured_bass: String,
    /// The symbol of the quality.
    pub quality: String,
    /// What an applied chord aims at, such as `/V`.
    pub applied: String,
    /// The scale that the chord is borrowed from.
    pub borrowed: String,
    pub alterations: TagList,
    pub suspensions: TagList,
    pub adds: TagList,
    pub omits: TagList,
}

/// The parts of a chord's symbol, as values.
pub struct GraphicModel {
    pub symbol: Seq<char>,
    pub figured_bass: Seq<char>,
    pub quality: Seq<char>,
    pub applied: Seq<char>,
    pub borrowed: Seq<char>,
    pub alterations: Seq<Seq<char>>,
    pub suspensions: Seq<Seq<char>>,
    pub adds: Seq<Seq<char>>,
    pub omits: Seq<Seq<char>>,
}

impl View for RomanNumeralGraphic {
    type V = GraphicModel;

    open spec fn view(&self) -> GraphicModel {
        GraphicModel {
            symbol: self.symbol@,
            figured_bass: self.figured_bass@,
            quality: self.quality@,
            applied: self.applied@,
            borrowed: self.borrowed@,
            alterations: self.alterations@,
            suspensions: self.suspensions@,
            adds: self.adds@,
            omits: self.omits@,
        }
    }
}

/// A list with one more text, unless it holds the text already.
pub open spec fn with_text(list: Seq<Seq<char>>, text: Seq<char>) -> Seq<Seq<char>> {
    if list.contains(text) {
        list
    } else {
        list.push(text)
    }
}

/// The letters that a text begins with, from `from` on.
pub open spec fn leading_letters(text: Seq<char>, from: int) -> Seq<char>
    decreases text.len() - from,
{
    if from < 0 || from >= text.len() || !char_is_alphabetic(text[from]) {
        Seq::empty()
    } else {
        seq![text[from]] + leading_letters(text, from + 1)
    }
}

/// The digits from 1 to 9 among the first `upto` characters of a text, as numbers.
pub open spec fn digits_in(text: Seq<char>, upto: int) -> Seq<u8>
    decreases upto,
{
    if upto <= 0 || upto > text.len() {
        Seq::empty()
    } else if '1' <= text[upto - 1] <= '9' {
        digits_in(text, upto - 1).push((text[upto - 1] as u32 - '0' as u32) as u8)
    } else {
        digits_in(text, upto - 1)
    }
}

/// The first `upto` texts of a list, each behind `before` and before `after`.
pub open spec fn framed(list: Seq<Seq<char>>, before: Seq<char>, after: Seq<char>, upto: int) -> Seq<
    char,
>
    decreases upto,
{
    if upto <= 0 || upto > list.len() {
        Seq::empty()
    } else {
        framed(list, before, after, upto - 1) + before + list[upto - 1] + after
    }
}

impl GraphicModel {
    /// The symbol alone.
    pub open spec fn plain(symbol: Seq<char>) -> GraphicModel {
        GraphicModel {
            symbol,
            figured_bass: Seq::empty(),
            quality: Seq::empty(),
            applied: Seq::empty(),
            borrowed: Seq::empty(),
            alterations: Seq::empty(),
            suspensions: Seq::empty(),
            adds: Seq::empty(),
            omits: Seq::empty(),
        }
    }

    /// The whole symbol: the numeral, the quality, the figured bass, each
    /// alteration in parentheses, each suspension behind `sus`, each added
    /// tone behind `add`, each omitted tone behind `omit`, what the chord is
    /// applied to, and in brackets the scale it is borrowed from.
    pub open spec fn full(self) -> Seq<char> {
        self.symbol + self.quality + self.figured_bass + framed(
            self.alterations,
            "("@,
            ")"@,
            self.alterations.len() as int,
        ) + framed(self.suspensions, "sus"@, ""@, self.suspensions.len() as int) + framed(
            self.adds,
            "add"@,
            ""@,
            self.adds.len() as int,
        ) + framed(self.omits, "omit"@, ""@, self.omits.len() as int) + self.applied + (
        if self.borrowed.len() > 0 {
            "["@ + self.borrowed + "]"@
        } else {
            Seq::empty()
        })
    }
}

/// Appends each text of a list behind `before` and before `after`.
fn append_framed(result: &mut String, list: &TagList, before: &str, after: &str)
    ensures
        final(result)@ == old(result)@ + framed(list@, before@, after@, list@.len() as int),
{
    let ghost start = result@;
    let mut i: usize = 0;
    assert(result@ =~= start + framed(list@, before@, after@, 0));
    while i < list.len()
        invariant
            i <= list@.len(),
            result@ == start + framed(list@, before@, after@, i as int),
        decreases list@.len() - i,
    {
        result.append(before);
        result.append(list.get(i).as_str());
        result.append(after);
        i = i + 1;
        assert(result@ =~= start + framed(list@, before@, after@, i as int));
    }
}

/// A list with one more text, unless it holds the text already.
fn push_new(list: TagList, text: String) -> (r: TagList)
    ensures
        r@ == with_text(list@, text@),
{
    let mut list = list;
    if !list.contains(text.as_str()) {
        list.push(text);
    }
    list
}

impl RomanNumeralGraphic {
    /// The graphic of a symbol alone.
    pub fn new(symbol: String) -> (g: Self)
        ensures
            g@ == GraphicModel::plain(symbol@),
    {
        RomanNumeralGraphic {
            symbol,
            figured_bass: String::new(),
            quality: String::new(),
            applied: String::new(),
            borrowed: String::new(),
            alterations: TagList::new(),
            suspensions: TagList::new(),
            adds: TagList::new(),
            omits: TagList::new(),
        }
    }

    /// The graphic with the given figured bass.
    pub fn with_figured_bass(self, figured_bass: String) -> (g: Self)
        ensures
            g@ == (GraphicModel { figured_bass: figured_bass@, ..self@ }),
    {
        let mut g = self;
        g.figured_bass = figured_bass;
        g
    }

    /// The graphic with the given quality.
    pub fn with_quality(self, quality: String) -> (g: Self)
        ensures
            g@ == (GraphicModel { quality: quality@, ..self@ }),
    {
        let mut g = self;
        g.quality = quality;
        g
    }

    /// The graphic of a chord applied to the given degree.
    pub fn with_applied(self, applied: String) -> (g: Self)
        ensures
            g@ == (GraphicModel { applied: applied@, ..self@ }),
    {
        let mut g = self;
        g.applied = applied;
        g
    }

    /// The graphic of a chord borrowed from the given scale.
    pub fn with_borrowed(self, borrowed: String) -> (g: Self)
        ensures
            g@ == (GraphicModel { borrowed: borrowed@, ..self@ }),
    {
        let mut g = self;
        g.borrowed = borrowed;
        g
    }

    /// The graphic with one more alteration, unless it has it already.
    pub fn with_alteration(self, alteration: String) -> (g: Self)
        ensures
            g@ == (GraphicModel {
                alterations: with_text(self@.alterations, alteration@),
                ..self@
            }),
    {
        let RomanNumeralGraphic {
            symbol,
            figured_bass,
            quality,
            applied,
            borrowed,
            alterations,
            suspensions,
            adds,
            omits,
        } = self;
        RomanNumeralGraphic {
            symbol,
            figured_bass,
            quality,
            applied,
            borrowed,
            alterations: push_new(alterations, alteration),
            suspensions,
            adds,
            omits,
        }
    }

    /// The graphic with one more suspension, unless it has it already.
    pub fn with_suspension(self, suspension: String) -> (g: Self)
        ensures
            g@ == (GraphicModel {
                suspensions: with_text(self@.suspensions, suspension@),
                ..self@
            }),
    {
        let RomanNumeralGraphic {
            symbol,
            figured_bass,
            quality,
            applied,
            borrowed,
            alterations,
            suspensions,
            adds,
            omits,
        } = self;
        RomanNumeralGraphic {
            symbol,
            figured_bass,
            quality,
            applied,
            borrowed,
            alterations,
            suspensions: push_new(suspensions, suspension),
            adds,
            omits,
        }
    }

    /// The graphic with one more added tone, unless it has it already.
    pub fn with_add(self, add: String) -> (g: Self)
        ensures
            g@ == (GraphicModel { adds: with_text(self@.adds, add@), ..self@ }),
    {
        let RomanNumeralGraphic {
            symbol,
            figured_bass,
            quality,
            applied,
            borrowed,
            alterations,
            suspensions,
            adds,
            omits,
        } = self;
        RomanNumeralGraphic {
            symbol,
            figured_bass,
            quality,
            applied,
            borrowed,
            alterations,
            suspensions,
            adds: push_new(adds, add),
            omits,
        }
    }

    /// The graphic with one more omitted tone, unless it has it already.
    pub fn with_omit(self, omit: String) -> (g: Self)
        ensures
            g@ == (GraphicModel { omits: with_text(self@.omits, omit@), ..self@ }),
    {
        let RomanNumeralGraphic {
            symbol,
            figured_bass,
            quality,
            applied,
            borrowed,
            alterations,
            suspensions,
            adds,
            omits,
        } = self;
        RomanNumeralGraphic {
            symbol,
            figured_bass,
            quality,
            applied,
            borrowed,
            alterations,
            suspensions,
            adds,
            omits: push_new(omits, omit),
        }
    }

    /// Whether the symbol begins with an uppercase letter.
    pub fn is_major(&self) -> (b: bool)
        ensures
            b == (self@.symbol.len() > 0 && char_is_uppercase(self@.symbol[0])),
    {
        if self.symbol.as_str().unicode_len() == 0 {
            return false;
        }
        is_uppercase(self.symbol.as_str().get_char(0))
    }

    /// Whether the symbol begins with a lowercase letter.
    pub fn is_minor(&self) -> (b: bool)
        ensures
            b == (self@.symbol.len() > 0 && char_is_lowercase(self@.symbol[0])),
    {
        if self.symbol.as_str().unicode_len() == 0 {
            return false;
        }
        is_lowercase(self.symbol.as_str().get_char(0))
    }

    /// Whether there is a figured bass.
    pub fn has_figured_bass(&self) -> (b: bool)
        ensures
            b == (self@.figured_bass.len() > 0),
    {
        self.figured_bass.as_str().unicode_len() != 0
    }

    /// Whether the chord is applied to a degree.
    pub fn is_applied(&self) -> (b: bool)
        ensures
            b == (self@.applied.len() > 0),
    {
        self.applied.as_str().unicode_len() != 0
    }

    /// Whether the chord is borrowed from a scale.
    pub fn is_borrowed(&self) -> (b: bool)
        ensures
            b == (self@.borrowed.len() > 0),
    {
        self.borrowed.as_str().unicode_len() != 0
    }

    /// Whether there is a symbol of the quality.
    pub fn has_quality(&self) -> (b: bool)
        ensures
            b == (self@.quality.len() > 0),
    {
        self.quality.as_str().unicode_len() != 0
    }

    /// The numeral alone: the letters that the symbol begins with.
    pub fn base_numeral(&self) -> (s: String)
        ensures
            s@ == leading_letters(self@.symbol, 0),
    {
        let chars = chars_of(self.symbol.as_str());
        let mut s = String::new();
        let mut i: usize = 0;
        while i < chars.len() && is_alphabetic(chars[i])
            invariant
                i <= chars@.len(),
                chars@ == self@.symbol,
                s@ + leading_letters(chars@, i as int) == leading_letters(chars@, 0),
            decreases chars@.len() - i,
        {
            let ghost before = s@;
            push_char(&mut s, chars[i]);
            assert(s@ + leading_letters(chars@, i + 1) =~= before + leading_letters(
                chars@,
                i as int,
            ));
            i = i + 1;
        }
        assert(s@ + leading_letters(chars@, i as int) =~= s@);
        s
    }

    /// The digits of the symbol from 1 to 9, as numbers.
    pub fn numeric_extensions(&self) -> (v: Vec<u8>)
        ensures
            v@ == digits_in(self@.symbol, self@.symbol.len() as int),
    {
        let chars = chars_of(self.symbol.as_str());
        let mut v: Vec<u8> = Vec::new();
        let mut i: usize = 0;
        while i < chars.len()
            invariant
                i <= chars@.len(),
                chars@ == self@.symbol,
                v@ == digits_in(chars@, i as int),
            decreases chars@.len() - i,
        {
            let c = chars[i];
            if '1' <= c && c <= '9' {
                v.push((c as u32 - '0' as u32) as u8);
            }
            i = i + 1;
        }
        v
    }

    /// The whole symbol.
    pub fn full_symbol(&self) -> (s: String)
        ensures
            s@ == self@.full(),
    {
        let mut result = String::new();
        result.append(self.symbol.as_str());
        result.append(self.quality.as_str());
        result.append(self.figured_bass.as_str());
        append_framed(&mut result, &self.alterations, "(", ")");
        append_framed(&mut result, &self.suspensions, "sus", "");
        append_framed(&mut result, &self.adds, "add", "");
        append_framed(&mut result, &self.omits, "omit", "");
        result.append(self.applied.as_str());
        let ghost before = result@;
        if self.borrowed.as_str().unicode_len() != 0 {
            result.append("[");
            result.append(self.borrowed.as_str());
            result.append("]");
        }
        assert(result@ =~= self@.full());
        result
    }

    /// The graphic without its alterations, suspensions, added and omitted tones.
    pub fn simplified(&self) -> (g: Self)
        ensures
            g@ == (GraphicModel {
                figured_bass: self@.figured_bass,
                quality: self@.quality,
                applied: self@.applied,
                borrowed: self@.borrowed,
                ..GraphicModel::plain(self@.symbol)
            }),
    {
        RomanNumeralGraphic {
            symbol: self.symbol.clone(),
            figured_bass: self.figured_bass.clone(),
            quality: self.quality.clone(),
            applied: self.applied.clone(),
            borrowed: self.borrowed.clone(),
            alterations: TagList::new(),
            suspensions: TagList::new(),
            adds: TagList::new(),
            omits: TagList::new(),
        }
    }

    /// The whole symbol.
    pub fn to_text(&self) -> (s: String)
        ensures
            s@ == self@.full(),
    {
        self.full_symbol()
    }
}

impl Clone for RomanNumeralGraphic {
    fn clone(&self) -> (g: Self)
        ensures
            g@ == self@,
    {
        RomanNumeralGraphic {
            symbol: self.symbol.clone(),
            figured_bass: self.figured_bass.clone(),
            quality: self.quality.clone(),
            applied: self.applied.clone(),
            borrowed: self.borrowed.clone(),
            alterations: self.alterations.clone(),
            suspensions: self.suspensions.clone(),
            adds: self.adds.clone(),
            omits: self.omits.clone(),
        }
    }
}

impl Default for RomanNumeralGraphic {
    fn default() -> (g: Self)
        ensures
            g@ == GraphicModel::plain(Seq::empty()),
    {
        RomanNumeralGraphic::new(String::new())
    }
}

impl QualityType {
    /// The symbol of the quality.
    pub fn to_text(&self) -> (s: String)
        ensures
            s@ == self.symbol_of(),
    {
        String::from_str(self.symbol())
    }
}

} // verus!
