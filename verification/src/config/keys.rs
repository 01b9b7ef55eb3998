//! Key chords and key sequences.

use vstd::prelude::*;

use crate::text;
use crate::text::{
    characters, collected, cut, cut_words, is_spaced, lower_chars, same_chars,
};

verus! {

/// A modifier in a global key chord.
#[derive(Clone, Copy, Debug, PartialEq, Eq, PartialOrd, Ord, Structural)]
pub enum KeyboardModifier {
    /// Control.
    Control,
    /// Alt/Mod1.
    Alt,
    /// Shift.
    Shift,
    /// Super/Mod4.
    Super,
}

/// What a key chord is: its modifiers in canonical order and a key symbol.
pub ghost struct ChordModel {
    pub modifiers: Seq<KeyboardModifier>,
    pub symbol: Seq<char>,
}

/// A modifier alone if it is among those given.
pub open spec fn only(given: Seq<KeyboardModifier>, modifier: KeyboardModifier) -> Seq<
    KeyboardModifier,
> {
    if given.contains(modifier) {
        seq![modifier]
    } else {
        Seq::empty()
    }
}

/// The given modifiers, each once, as Control, Alt, Shift, Super.
pub open spec fn canonical(given: Seq<KeyboardModifier>) -> Seq<KeyboardModifier> {
    only(given, KeyboardModifier::Control) + only(given, KeyboardModifier::Alt) + only(
        given,
        KeyboardModifier::Shift,
    ) + only(given, KeyboardModifier::Super)
}

/// The modifier with a name, in any case.
pub open spec fn modifier_of(name: Seq<char>) -> Option<KeyboardModifier> {
    let name = text::lower(name);
    if name == "c"@ || name == "ctrl"@ || name == "control"@ {
        Some(KeyboardModifier::Control)
    } else if name == "a"@ || name == "alt"@ {
        Some(KeyboardModifier::Alt)
    } else if name == "s"@ || name == "shift"@ {
        Some(KeyboardModifier::Shift)
    } else if name == "w"@ || name == "super"@ {
        Some(KeyboardModifier::Super)
    } else {
        None
    }
}

/// The modifiers with the given names, none of them named twice.
pub open spec fn modifiers_of(names: Seq<Seq<char>>) -> Option<Seq<KeyboardModifier>>
    decreases names.len(),
{
    if names.len() == 0 {
        Some(Seq::empty())
    } else {
        match (modifiers_of(names.drop_last()), modifier_of(names.last())) {
            (Some(before), Some(modifier)) => if before.contains(modifier) {
                None
            } else {
                Some(before.push(modifier))
            },
            _ => None,
        }
    }
}

/// The spelling of modifiers in front of a symbol.
pub open spec fn modifiers_text(modifiers: Seq<KeyboardModifier>) -> Seq<char>
    decreases modifiers.len(),
{
    if modifiers.len() == 0 {
        Seq::empty()
    } else {
        modifiers_text(modifiers.drop_last()).push(modifiers.last().letter()).push('-')
    }
}

/// The chord that text spells: modifier names and a symbol, joined by hyphens.
pub open spec fn chord_of(text: Seq<char>) -> Option<ChordModel> {
    let parts = text::pieces(text, '-');
    if text::spaced(text) || parts.last().len() == 0 {
        None
    } else {
        match modifiers_of(parts.drop_last()) {
            Some(modifiers) => Some(
                ChordModel { modifiers: canonical(modifiers), symbol: parts.last() },
            ),
            None => None,
        }
    }
}

/// The chords that words spell, if each of them spells one.
pub open spec fn chords_of(words: Seq<Seq<char>>) -> Option<Seq<ChordModel>>
    decreases words.len(),
{
    if words.len() == 0 {
        Some(Seq::empty())
    } else {
        match (chords_of(words.drop_last()), chord_of(words.last())) {
            (Some(before), Some(chord)) => Some(before.push(chord)),
            _ => None,
        }
    }
}

/// The key sequence that text spells: at least one chord, separated by white space.
pub open spec fn sequence_of(text: Seq<char>) -> Option<Seq<ChordModel>> {
    match chords_of(text::words(text)) {
        Some(chords) => if chords.len() == 0 {
            None
        } else {
            Some(chords)
        },
        None => None,
    }
}

/// The canonical spelling of a key sequence.
pub open spec fn sequence_text(chords: Seq<ChordModel>) -> Seq<char>
    decreases chords.len(),
{
    if chords.len() == 0 {
        Seq::empty()
    } else if chords.len() == 1 {
        chords[0].text()
    } else {
        sequence_text(chords.drop_last()).push(' ') + chords.last().text()
    }
}

/// Whether one sequence continues the other.
pub open spec fn strict_prefix(shorter: Seq<ChordModel>, longer: Seq<ChordModel>) -> bool {
    shorter.len() < longer.len() && longer.take(shorter.len() as int) == shorter
}

/// The models of a list of chords.
pub open spec fn chord_models(chords: Seq<KeyChord>) -> Seq<ChordModel> {
    Seq::new(chords.len(), |i: int| chords[i]@)
}

impl ChordModel {
    /// The canonical spelling.
    pub open spec fn text(self) -> Seq<char> {
        modifiers_text(self.modifiers) + self.symbol
    }
}

impl KeyboardModifier {
    /// The letter by which the modifier is spelled.
    pub open spec fn letter(self) -> char {
        match self {
            KeyboardModifier::Control => 'C',
            KeyboardModifier::Alt => 'A',
            KeyboardModifier::Shift => 'S',
            KeyboardModifier::Super => 'W',
        }
    }

    /// Returns the letter by which the modifier is spelled.
    pub fn short_name(self) -> (letter: char)
        ensures
            letter == self.letter(),
    {
        match self {
            KeyboardModifier::Control => 'C',
            KeyboardModifier::Alt => 'A',
            KeyboardModifier::Shift => 'S',
            KeyboardModifier::Super => 'W',
        }
    }
}

/// Whether a modifier is in a list.
pub(crate) fn holds_modifier(modifiers: &[KeyboardModifier], wanted: KeyboardModifier) -> (r: bool)
    ensures
        r == modifiers@.contains(wanted),
{
    let mut index: usize = 0;
    while index < modifiers.len()
        invariant
            index <= modifiers.len(),
            forall|i: int| 0 <= i < index ==> modifiers@[i] != wanted,
        decreases modifiers.len() - index,
    {
        if modifiers[index] == wanted {
            return true;
        }
        index = index + 1;
    }
    false
}

/// Whether two lists of modifiers are the same.
pub(crate) fn same_modifiers(left: &[KeyboardModifier], right: &[KeyboardModifier]) -> (r: bool)
    ensures
        r == (left@ == right@),
{
    if left.len() != right.len() {
        return false;
    }
    let mut index: usize = 0;
    while index < left.len()
        invariant
            index <= left.len(),
            left.len() == right.len(),
            forall|i: int| 0 <= i < index ==> left@[i] == right@[i],
        decreases left.len() - index,
    {
        if left[index] != right[index] {
            assert(left@[index as int] != right@[index as int]);
            return false;
        }
        index = index + 1;
    }
    assert(left@ =~= right@);
    true
}

/// Puts modifiers into canonical order, each once.
pub(crate) fn canonical_modifiers(given: &[KeyboardModifier]) -> (r: Vec<KeyboardModifier>)
    ensures
        r@ == canonical(given@),
{
    let mut found: Vec<KeyboardModifier> = Vec::new();
    if holds_modifier(given, KeyboardModifier::Control) {
        found.push(KeyboardModifier::Control);
    }
    if holds_modifier(given, KeyboardModifier::Alt) {
        found.push(KeyboardModifier::Alt);
    }
    if holds_modifier(given, KeyboardModifier::Shift) {
        found.push(KeyboardModifier::Shift);
    }
    if holds_modifier(given, KeyboardModifier::Super) {
        found.push(KeyboardModifier::Super);
    }
    assert(found@ =~= canonical(given@));
    found
}

/// A copy of a list of modifiers.
pub(crate) fn copied_modifiers(given: &[KeyboardModifier]) -> (r: Vec<KeyboardModifier>)
    ensures
        r@ == given@,
{
    let mut found: Vec<KeyboardModifier> = Vec::new();
    let mut index: usize = 0;
    while index < given.len()
        invariant
            index <= given.len(),
            found@ == given@.take(index as int),
        decreases given.len() - index,
    {
        assert(given@.take(index + 1) =~= given@.take(index as int).push(given@[index as int]));
        found.push(given[index]);
        index = index + 1;
    }
    assert(given@.take(index as int) =~= given@);
    found
}

/// Appends the spelling of modifiers.
pub(crate) fn push_modifiers(text: &mut String, modifiers: &[KeyboardModifier])
    ensures
        final(text)@ == old(text)@ + modifiers_text(modifiers@),
{
    let ghost before = text@;
    let mut index: usize = 0;
    assert(text@ =~= before + modifiers_text(modifiers@.take(0)));
    while index < modifiers.len()
        invariant
            index <= modifiers.len(),
            text@ == before + modifiers_text(modifiers@.take(index as int)),
        decreases modifiers.len() - index,
    {
        assert(modifiers@.take(index + 1).drop_last() =~= modifiers@.take(index as int));
        let letter = modifiers[index].short_name();
        text.push(letter);
        text.push('-');
        assert(text@ =~= before + modifiers_text(modifiers@.take(index + 1)));
        index = index + 1;
    }
    assert(modifiers@.take(index as int) =~= modifiers@);
}

/// Whether lower-case characters are a word.
pub(crate) fn is_word(chars: &[char], word: &str) -> (r: bool)
    ensures
        r == (chars@ == word@),
{
    let wanted = characters(word);
    same_chars(chars, wanted.as_slice())
}

/// Parses a modifier's name.
pub(crate) fn parse_modifier(name: &[char]) -> (r: Option<KeyboardModifier>)
    ensures
        r == modifier_of(name@),
{
    let lowered = lower_chars(name);
    let name = lowered.as_slice();
    if is_word(name, "c") || is_word(name, "ctrl") || is_word(name, "control") {
        Some(KeyboardModifier::Control)
    } else if is_word(name, "a") || is_word(name, "alt") {
        Some(KeyboardModifier::Alt)
    } else if is_word(name, "s") || is_word(name, "shift") {
        Some(KeyboardModifier::Shift)
    } else if is_word(name, "w") || is_word(name, "super") {
        Some(KeyboardModifier::Super)
    } else {
        None
    }
}

/// A name that spells no modifier, or one that is already there, spoils every longer list.
proof fn lemma_modifiers_stay_none(names: Seq<Seq<char>>, length: int)
    requires
        0 <= length <= names.len(),
        modifiers_of(names.take(length)) is None,
    ensures
        modifiers_of(names) is None,
    decreases names.len(),
{
    if length < names.len() {
        assert(names.drop_last().take(length) =~= names.take(length));
        lemma_modifiers_stay_none(names.drop_last(), length);
    } else {
        assert(names.take(length) =~= names);
    }
}

/// Parses every part but the last as a modifier's name.
pub(crate) fn parse_modifiers(parts: &Vec<Vec<char>>) -> (r: Option<Vec<KeyboardModifier>>)
    requires
        parts@.len() > 0,
    ensures
        match r {
            Some(modifiers) => modifiers_of(text::texts(parts@).drop_last()) == Some(modifiers@),
            None => modifiers_of(text::texts(parts@).drop_last()) is None,
        },
{
    let ghost names = text::texts(parts@).drop_last();
    let mut modifiers: Vec<KeyboardModifier> = Vec::new();
    let mut index: usize = 0;
    assert(names.take(0) =~= Seq::empty());
    assert(modifiers@ =~= Seq::empty());
    while index < parts.len() - 1
        invariant
            parts@.len() > 0,
            names == text::texts(parts@).drop_last(),
            index <= parts@.len() - 1,
            modifiers_of(names.take(index as int)) == Some(modifiers@),
        decreases parts.len() - index,
    {
        assert(names.take(index + 1).drop_last() =~= names.take(index as int));
        assert(names.take(index + 1).last() == parts@[index as int]@);
        match parse_modifier(parts[index].as_slice()) {
            Some(modifier) => {
                if holds_modifier(modifiers.as_slice(), modifier) {
                    proof {
                        lemma_modifiers_stay_none(names, index + 1);
                    }
                    return None;
                }
                modifiers.push(modifier);
            },
            None => {
                proof {
                    lemma_modifiers_stay_none(names, index + 1);
                }
                return None;
            },
        }
        index = index + 1;
    }
    assert(names.take(index as int) =~= names);
    Some(modifiers)
}

/// Parsed global key chord.
#[derive(Debug, PartialEq, Eq, PartialOrd, Ord)]
pub struct KeyChord {
    modifiers: Vec<KeyboardModifier>,
    symbol: String,
}

/// Error returned for malformed key-chord syntax.
#[derive(Clone, Debug, PartialEq, Eq)]
pub struct KeyChordError(String);

impl KeyChordError {
    /// The text that was refused.
    pub closed spec fn refused(self) -> Seq<char> {
        self.0@
    }
}

impl View for KeyChord {
    type V = ChordModel;

    closed spec fn view(&self) -> ChordModel {
        ChordModel { modifiers: self.modifiers@, symbol: self.symbol@ }
    }
}

impl Clone for KeyChord {
    fn clone(&self) -> (copy: Self)
        ensures
            copy@ == self@,
    {
        KeyChord {
            modifiers: copied_modifiers(self.modifiers.as_slice()),
            symbol: self.symbol.clone(),
        }
    }
}

impl KeyChord {
    /// Creates a chord with its modifiers in canonical order.
    #[must_use]
    pub fn new(modifiers: &[KeyboardModifier], symbol: &str) -> (chord: Self)
        ensures
            chord@ == (ChordModel { modifiers: canonical(modifiers@), symbol: symbol@ }),
    {
        KeyChord { modifiers: canonical_modifiers(modifiers), symbol: symbol.to_owned() }
    }

    /// Returns the chord's modifiers in canonical order.
    #[must_use]
    pub fn modifiers(&self) -> (modifiers: &[KeyboardModifier])
        ensures
            modifiers@ == self@.modifiers,
    {
        self.modifiers.as_slice()
    }

    /// Returns the X11 keysym name.
    #[must_use]
    pub fn symbol(&self) -> (symbol: &str)
        ensures
            symbol@ == self@.symbol,
    {
        self.symbol.as_str()
    }

    /// Returns the canonical spelling.
    #[must_use]
    pub fn text(&self) -> (text: String)
        ensures
            text@ == self@.text(),
    {
        let mut text = String::new();
        push_modifiers(&mut text, self.modifiers.as_slice());
        text.append(self.symbol.as_str());
        assert(text@ =~= self@.text());
        text
    }

    /// Whether two chords are the same.
    pub(crate) fn same(&self, other: &Self) -> (r: bool)
        ensures
            r == (self@ == other@),
    {
        same_modifiers(self.modifiers.as_slice(), other.modifiers.as_slice()) && self.symbol
            == other.symbol
    }

    /// Parses modifier names and a symbol joined by hyphens.
    ///
    /// # Errors
    ///
    /// Returns an error for white space, a missing symbol, an unknown modifier, or one given
    /// twice.
    pub fn parse(value: &str) -> (parsed: Result<Self, KeyChordError>)
        ensures
            match parsed {
                Ok(chord) => chord_of(value@) == Some(chord@),
                Err(error) => chord_of(value@) is None && error.refused() == value@,
            },
    {
        let chars = characters(value);
        match Self::parse_chars(chars.as_slice()) {
            Some(chord) => Ok(chord),
            None => Err(KeyChordError(value.to_owned())),
        }
    }

    fn parse_chars(chars: &[char]) -> (parsed: Option<Self>)
        ensures
            match parsed {
                Some(chord) => chord_of(chars@) == Some(chord@),
                None => chord_of(chars@) is None,
            },
    {
        let value = collected(chars);
        if is_spaced(value.as_str()) {
            return None;
        }
        let parts = cut(chars, '-');
        proof {
            text::lemma_pieces(chars@, '-');
        }
        let last = parts.len() - 1;
        if parts[last].len() == 0 {
            return None;
        }
        match parse_modifiers(&parts) {
            Some(modifiers) => {
                let symbol = collected(parts[last].as_slice());
                Some(KeyChord { modifiers: canonical_modifiers(modifiers.as_slice()), symbol })
            },
            None => None,
        }
    }
}

impl core::str::FromStr for KeyChord {
    type Err = KeyChordError;

    fn from_str(value: &str) -> (parsed: Result<Self, KeyChordError>)
        ensures
            match parsed {
                Ok(chord) => chord_of(value@) == Some(chord@),
                Err(error) => chord_of(value@) is None && error.refused() == value@,
            },
    {
        Self::parse(value)
    }
}

/// One or more key chords pressed in order.
#[derive(Debug, PartialEq, Eq, PartialOrd, Ord)]
pub struct KeySequence {
    chords: Vec<KeyChord>,
}

/// Error returned for a malformed key-sequence string.
#[derive(Clone, Debug, PartialEq, Eq)]
pub struct KeySequenceError(String);

impl KeySequenceError {
    /// The text that was refused.
    pub closed spec fn refused(self) -> Seq<char> {
        self.0@
    }
}

impl View for KeySequence {
    type V = Seq<ChordModel>;

    closed spec fn view(&self) -> Seq<ChordModel> {
        chord_models(self.chords@)
    }
}

impl Clone for KeySequence {
    fn clone(&self) -> (copy: Self)
        ensures
            copy@ == self@,
    {
        let mut chords: Vec<KeyChord> = Vec::new();
        let mut index: usize = 0;
        while index < self.chords.len()
            invariant
                index <= self.chords.len(),
                chords.len() == index,
                forall|i: int| 0 <= i < index ==> (#[trigger] chords@[i])@ == self.chords@[i]@,
            decreases self.chords.len() - index,
        {
            chords.push(self.chords[index].clone());
            index = index + 1;
        }
        let copy = KeySequence { chords };
        assert(copy@ =~= self@);
        copy
    }
}

/// A word that spells no chord spoils every longer sequence.
proof fn lemma_chords_stay_none(words: Seq<Seq<char>>, length: int)
    requires
        0 <= length <= words.len(),
        chords_of(words.take(length)) is None,
    ensures
        chords_of(words) is None,
    decreases words.len(),
{
    if length < words.len() {
        assert(words.drop_last().take(length) =~= words.take(length));
        lemma_chords_stay_none(words.drop_last(), length);
    } else {
        assert(words.take(length) =~= words);
    }
}

impl KeySequence {
    /// Creates a sequence of one chord.
    pub fn single(chord: KeyChord) -> (sequence: Self)
        ensures
            sequence@ == seq![chord@],
    {
        let mut chords: Vec<KeyChord> = Vec::new();
        chords.push(chord);
        let sequence = KeySequence { chords };
        assert(sequence@ =~= seq![chord@]);
        sequence
    }

    /// Returns the ordered chords in this sequence.
    #[must_use]
    pub fn chords(&self) -> (chords: &[KeyChord])
        ensures
            chord_models(chords@) == self@,
    {
        self.chords.as_slice()
    }

    /// Returns the canonical spelling.
    #[must_use]
    pub fn text(&self) -> (text: String)
        ensures
            text@ == sequence_text(self@),
    {
        let mut text = String::new();
        let mut index: usize = 0;
        assert(text@ =~= sequence_text(self@.take(0)));
        while index < self.chords.len()
            invariant
                index <= self.chords.len(),
                self@ == chord_models(self.chords@),
                text@ == sequence_text(self@.take(index as int)),
            decreases self.chords.len() - index,
        {
            assert(self@.take(index + 1).drop_last() =~= self@.take(index as int));
            if index > 0 {
                text.push(' ');
            }
            let chord = self.chords[index].text();
            text.append(chord.as_str());
            assert(text@ =~= sequence_text(self@.take(index + 1)));
            index = index + 1;
        }
        assert(self@.take(index as int) =~= self@);
        text
    }

    /// Whether two sequences are the same.
    pub(crate) fn same(&self, other: &Self) -> (r: bool)
        ensures
            r == (self@ == other@),
    {
        if self.chords.len() != other.chords.len() {
            return false;
        }
        self.starts(other)
    }

    /// Whether this sequence's chords start the other.
    fn starts(&self, other: &Self) -> (r: bool)
        requires
            self@.len() <= other@.len(),
        ensures
            r == (other@.take(self@.len() as int) == self@),
            self@.len() == other@.len() ==> r == (self@ == other@),
    {
        let mut index: usize = 0;
        while index < self.chords.len()
            invariant
                index <= self.chords.len() <= other.chords.len(),
                forall|i: int|
                    0 <= i < index ==> (#[trigger] self.chords@[i])@ == other.chords@[i]@,
            decreases self.chords.len() - index,
        {
            if !self.chords[index].same(&other.chords[index]) {
                assert(self@[index as int] != other@[index as int]);
                assert(other@.take(self@.len() as int)[index as int] == other@[index as int]);
                return false;
            }
            index = index + 1;
        }
        assert(other@.take(self@.len() as int) =~= self@);
        proof {
            if self@.len() == other@.len() {
                assert(other@.take(self@.len() as int) =~= other@);
            }
        }
        true
    }

    /// Whether the other sequence continues this one.
    pub(crate) fn is_strict_prefix_of(&self, other: &Self) -> (r: bool)
        ensures
            r == strict_prefix(self@, other@),
    {
        self.chords.len() < other.chords.len() && self.starts(other)
    }

    /// Parses chords separated by white space.
    ///
    /// # Errors
    ///
    /// Returns an error for a malformed chord, or when there is no chord.
    pub fn parse(value: &str) -> (parsed: Result<Self, KeySequenceError>)
        ensures
            match parsed {
                Ok(sequence) => sequence_of(value@) == Some(sequence@),
                Err(error) => sequence_of(value@) is None && error.refused() == value@,
            },
    {
        let chars = characters(value);
        let parts = cut_words(chars.as_slice());
        let ghost words = text::texts(parts@);
        let mut chords: Vec<KeyChord> = Vec::new();
        let mut index: usize = 0;
        assert(words.take(0) =~= Seq::empty());
        assert(chord_models(chords@) =~= Seq::empty());
        while index < parts.len()
            invariant
                index <= parts.len(),
                words == text::texts(parts@),
                words == text::words(value@),
                chords_of(words.take(index as int)) == Some(chord_models(chords@)),
                chords.len() == index,
            decreases parts.len() - index,
        {
            assert(words.take(index + 1).drop_last() =~= words.take(index as int));
            assert(words.take(index + 1).last() == parts@[index as int]@);
            match KeyChord::parse_chars(parts[index].as_slice()) {
                Some(chord) => {
                    let ghost longer = chords@.push(chord);
                    assert(chord_models(longer) =~= chord_models(chords@).push(chord@));
                    chords.push(chord);
                },
                None => {
                    proof {
                        lemma_chords_stay_none(words, index + 1);
                    }
                    return Err(KeySequenceError(value.to_owned()));
                },
            }
            index = index + 1;
        }
        assert(words.take(index as int) =~= words);
        if chords.len() == 0 {
            return Err(KeySequenceError(value.to_owned()));
        }
        Ok(KeySequence { chords })
    }
}

impl core::str::FromStr for KeySequence {
    type Err = KeySequenceError;

    fn from_str(value: &str) -> (parsed: Result<Self, KeySequenceError>)
        ensures
            match parsed {
                Ok(sequence) => sequence_of(value@) == Some(sequence@),
                Err(error) => sequence_of(value@) is None && error.refused() == value@,
            },
    {
        Self::parse(value)
    }
}

/// The letters of modifiers, each as a piece of its own.
pub(crate) open spec fn letters(modifiers: Seq<KeyboardModifier>) -> Seq<Seq<char>> {
    Seq::new(modifiers.len(), |i: int| seq![modifiers[i].letter()])
}

/// Text without the separator after a separator is the last piece.
proof fn lemma_last_piece(before: Seq<char>, last: Seq<char>, separator: char)
    requires
        !last.contains(separator),
    ensures
        text::pieces(before.push(separator) + last, separator) == text::pieces(
            before,
            separator,
        ).push(last),
    decreases last.len(),
{
    let whole = before.push(separator) + last;
    if last.len() == 0 {
        assert(whole =~= before.push(separator));
        assert(whole.drop_last() =~= before);
        assert(last =~= Seq::empty());
    } else {
        assert forall|i: int| 0 <= i < last.len() - 1 implies last.drop_last()[i] != separator by {
            assert(last.contains(last[i]));
        }
        assert(!last.drop_last().contains(separator));
        lemma_last_piece(before, last.drop_last(), separator);
        assert(whole.drop_last() =~= before.push(separator) + last.drop_last());
        assert(last.contains(last.last()));
        let pieces = text::pieces(before, separator);
        assert(pieces.push(last.drop_last()).drop_last() =~= pieces);
        assert(last.drop_last().push(last.last()) =~= last);
    }
}

/// Text without the separator is one piece.
pub(crate) proof fn lemma_one_piece(whole: Seq<char>, separator: char)
    requires
        !whole.contains(separator),
    ensures
        text::pieces(whole, separator) == seq![whole],
    decreases whole.len(),
{
    if whole.len() == 0 {
        assert(whole =~= Seq::empty());
    } else {
        assert forall|i: int| 0 <= i < whole.len() - 1 implies whole.drop_last()[i]
            != separator by {
            assert(whole.contains(whole[i]));
        }
        assert(!whole.drop_last().contains(separator));
        lemma_one_piece(whole.drop_last(), separator);
        assert(whole.contains(whole.last()));
        assert(seq![whole.drop_last()].drop_last() =~= Seq::<Seq<char>>::empty());
        assert(whole.drop_last().push(whole.last()) =~= whole);
        assert(text::pieces(whole, separator) =~= seq![whole]);
    }
}

/// The spelled modifiers and the symbol are the pieces of a chord's spelling.
pub(crate) proof fn lemma_chord_pieces(modifiers: Seq<KeyboardModifier>, symbol: Seq<char>)
    requires
        !symbol.contains('-'),
    ensures
        text::pieces(modifiers_text(modifiers) + symbol, '-') == letters(modifiers).push(symbol),
    decreases modifiers.len(),
{
    if modifiers.len() == 0 {
        assert(modifiers_text(modifiers) + symbol =~= symbol);
        lemma_one_piece(symbol, '-');
        assert(letters(modifiers).push(symbol) =~= seq![symbol]);
    } else {
        let before = modifiers.drop_last();
        let letter = seq![modifiers.last().letter()];
        assert(letter.len() == 1 && letter[0] != '-');
        assert(!letter.contains('-'));
        lemma_chord_pieces(before, letter);
        let start = modifiers_text(before) + letter;
        lemma_last_piece(start, symbol, '-');
        assert(modifiers_text(modifiers) + symbol =~= start.push('-') + symbol);
        assert(letters(before).push(letter) =~= letters(modifiers));
    }
}

/// Letters name the modifiers that they spell.
pub(crate) proof fn lemma_letters_name_modifiers(modifiers: Seq<KeyboardModifier>)
    requires
        modifiers.no_duplicates(),
    ensures
        modifiers_of(letters(modifiers)) == Some(modifiers),
    decreases modifiers.len(),
{
    if modifiers.len() == 0 {
        assert(modifiers =~= Seq::empty());
    } else {
        let before = modifiers.drop_last();
        lemma_letters_name_modifiers(before);
        assert(letters(modifiers).drop_last() =~= letters(before));
        assert(modifier_of(seq![modifiers.last().letter()]) == Some(modifiers.last())) by {
            reveal_strlit("c");
            reveal_strlit("a");
            reveal_strlit("s");
            reveal_strlit("w");
            reveal_strlit("ctrl");
            reveal_strlit("control");
            reveal_strlit("alt");
            reveal_strlit("shift");
            reveal_strlit("super");
            let name = text::lower(seq![modifiers.last().letter()]);
            assert(name.len() == 1);
            match modifiers.last() {
                KeyboardModifier::Control => {
                    assert(name =~= "c"@);
                },
                KeyboardModifier::Alt => {
                    assert(name =~= "a"@);
                    assert("c"@[0] != "a"@[0]);
                },
                KeyboardModifier::Shift => {
                    assert(name =~= "s"@);
                    assert("c"@[0] != "s"@[0]);
                    assert("a"@[0] != "s"@[0]);
                },
                KeyboardModifier::Super => {
                    assert(name =~= "w"@);
                    assert("c"@[0] != "w"@[0]);
                    assert("a"@[0] != "w"@[0]);
                    assert("s"@[0] != "w"@[0]);
                },
            }
        }
        assert(!before.contains(modifiers.last()));
        assert(before.push(modifiers.last()) =~= modifiers);
    }
}

/// Putting modifiers into canonical order once is enough.
pub(crate) proof fn lemma_canonical(given: Seq<KeyboardModifier>)
    ensures
        canonical(given).no_duplicates(),
        canonical(canonical(given)) == canonical(given),
        forall|m: KeyboardModifier| canonical(given).contains(m) <==> given.contains(m),
{
    let c = only(given, KeyboardModifier::Control);
    let a = only(given, KeyboardModifier::Alt);
    let s = only(given, KeyboardModifier::Shift);
    let w = only(given, KeyboardModifier::Super);
    let whole = canonical(given);
    assert forall|m: KeyboardModifier| whole.contains(m) <==> given.contains(m) by {
        if given.contains(m) {
            match m {
                KeyboardModifier::Control => {
                    assert(whole[0] == m);
                },
                KeyboardModifier::Alt => {
                    assert(whole[c.len() as int] == m);
                },
                KeyboardModifier::Shift => {
                    assert(whole[(c.len() + a.len()) as int] == m);
                },
                KeyboardModifier::Super => {
                    assert(whole[(c.len() + a.len() + s.len()) as int] == m);
                },
            }
        }
    }
    assert(canonical(whole) =~= whole);
}

/// No piece holds the separator, and pieces hold only what the text holds.
proof fn lemma_pieces_of(whole: Seq<char>, separator: char)
    ensures
        forall|i: int|
            0 <= i < text::pieces(whole, separator).len() ==> !(#[trigger] text::pieces(
                whole,
                separator,
            )[i]).contains(separator),
        forall|i: int, c: char|
            0 <= i < text::pieces(whole, separator).len() && (#[trigger] text::pieces(
                whole,
                separator,
            )[i].contains(c)) ==> whole.contains(c),
    decreases whole.len(),
{
    text::lemma_pieces(whole, separator);
    if whole.len() > 0 {
        let shorter = whole.drop_last();
        lemma_pieces_of(shorter, separator);
        text::lemma_pieces(shorter, separator);
        let before = text::pieces(shorter, separator);
        let now = text::pieces(whole, separator);
        assert forall|i: int, c: char| 0 <= i < now.len() && #[trigger] now[i].contains(c) implies c
            != separator && whole.contains(c) by {
            let at = choose|at: int| 0 <= at < now[i].len() && now[i][at] == c;
            if whole.last() == separator {
                assert(i < before.len());
                assert(before[i].contains(c));
                let found = choose|found: int| 0 <= found < shorter.len() && shorter[found] == c;
                assert(whole[found] == c);
            } else if i < now.len() - 1 {
                assert(now[i] == before[i]);
                assert(before[i].contains(c));
                let found = choose|found: int| 0 <= found < shorter.len() && shorter[found] == c;
                assert(whole[found] == c);
            } else if at < now[i].len() - 1 {
                assert(before.last()[at] == c);
                assert(before[before.len() - 1].contains(c));
                let found = choose|found: int| 0 <= found < shorter.len() && shorter[found] == c;
                assert(whole[found] == c);
            } else {
                assert(whole[whole.len() - 1] == c);
            }
        }
    } else {
        assert(text::pieces(whole, separator)[0] =~= Seq::empty());
    }
}

/// What a parsed chord looks like.
proof fn lemma_parsed_chord(spelling: Seq<char>)
    requires
        chord_of(spelling) is Some,
    ensures
        ({
            let chord = chord_of(spelling)->Some_0;
            &&& chord.symbol.len() > 0
            &&& !chord.symbol.contains('-')
            &&& !text::spaced(chord.symbol)
            &&& canonical(chord.modifiers) == chord.modifiers
            &&& chord.modifiers.no_duplicates()
        }),
{
    let chord = chord_of(spelling)->Some_0;
    let parts = text::pieces(spelling, '-');
    text::lemma_pieces(spelling, '-');
    lemma_pieces_of(spelling, '-');
    let last = parts.len() - 1;
    assert(chord.symbol == parts[last]);
    assert(!parts[last].contains('-'));
    if text::spaced(chord.symbol) {
        let at = choose|at: int|
            0 <= at < chord.symbol.len() && text::white_space(#[trigger] chord.symbol[at]);
        assert(parts[last].contains(chord.symbol[at]));
        let found = choose|found: int|
            0 <= found < spelling.len() && spelling[found] == chord.symbol[at];
        assert(text::white_space(spelling[found]));
    }
    lemma_canonical(modifiers_of(parts.drop_last())->Some_0);
}

/// The spelling of modifiers holds no white space.
pub(crate) proof fn lemma_modifiers_text_unspaced(modifiers: Seq<KeyboardModifier>)
    ensures
        !text::spaced(modifiers_text(modifiers)),
    decreases modifiers.len(),
{
    if modifiers.len() > 0 {
        lemma_modifiers_text_unspaced(modifiers.drop_last());
        let before = modifiers_text(modifiers.drop_last());
        assert forall|i: int| 0 <= i < modifiers_text(modifiers).len() implies !text::white_space(
            #[trigger] modifiers_text(modifiers)[i],
        ) by {
            if i < before.len() {
                assert(!text::white_space(before[i]));
            }
        }
    }
}

/// The canonical spelling of a parsed chord parses back to that chord.
pub proof fn law_chord_text_parses_back(spelling: Seq<char>)
    requires
        chord_of(spelling) is Some,
    ensures
        chord_of(chord_of(spelling)->Some_0.text()) == chord_of(spelling),
        chord_of(spelling)->Some_0.text().len() > 0,
        !text::spaced(chord_of(spelling)->Some_0.text()),
{
    let chord = chord_of(spelling)->Some_0;
    lemma_parsed_chord(spelling);
    lemma_chord_pieces(chord.modifiers, chord.symbol);
    lemma_letters_name_modifiers(chord.modifiers);
    lemma_modifiers_text_unspaced(chord.modifiers);
    let whole = chord.text();
    let start = modifiers_text(chord.modifiers);
    assert forall|i: int| 0 <= i < whole.len() implies !text::white_space(#[trigger] whole[i]) by {
        if i < start.len() {
            assert(!text::white_space(start[i]));
        } else {
            assert(!text::white_space(chord.symbol[i - start.len()]));
        }
    }
    let parts = letters(chord.modifiers).push(chord.symbol);
    assert(parts.drop_last() =~= letters(chord.modifiers));
}

/// A word after a space is the last word.
proof fn lemma_last_word(before: Seq<char>, last: Seq<char>)
    requires
        last.len() > 0,
        !text::spaced(last),
    ensures
        text::words(before.push(' ') + last) == text::words(before).push(last),
    decreases last.len(),
{
    reveal_with_fuel(text::words, 3);
    let whole = before.push(' ') + last;
    let shorter = last.drop_last();
    assert(whole.drop_last() =~= before.push(' ') + shorter);
    assert(!text::white_space(last[last.len() - 1]));
    if last.len() == 1 {
        assert(whole.drop_last() =~= before.push(' '));
        assert(before.push(' ').drop_last() =~= before);
        assert(whole[whole.len() - 2] == ' ');
        assert(last =~= seq![whole.last()]);
    } else {
        assert forall|i: int| 0 <= i < shorter.len() implies !text::white_space(
            #[trigger] shorter[i],
        ) by {
            assert(!text::white_space(last[i]));
        }
        lemma_last_word(before, shorter);
        assert(!text::white_space(last[last.len() - 2]));
        assert(whole[whole.len() - 2] == last[last.len() - 2]);
        let words = text::words(before).push(shorter);
        assert(words.drop_last() =~= text::words(before));
        assert(shorter.push(last.last()) =~= last);
    }
}

/// Text without white space is one word.
proof fn lemma_one_word(whole: Seq<char>)
    requires
        whole.len() > 0,
        !text::spaced(whole),
    ensures
        text::words(whole) == seq![whole],
    decreases whole.len(),
{
    reveal_with_fuel(text::words, 2);
    let shorter = whole.drop_last();
    assert(!text::white_space(whole[whole.len() - 1]));
    if whole.len() == 1 {
        assert(shorter =~= Seq::empty());
        assert(whole =~= seq![whole.last()]);
        assert(text::words(whole) =~= seq![whole]);
    } else {
        assert forall|i: int| 0 <= i < shorter.len() implies !text::white_space(
            #[trigger] shorter[i],
        ) by {
            assert(!text::white_space(whole[i]));
        }
        lemma_one_word(shorter);
        assert(!text::white_space(whole[whole.len() - 2]));
        assert(seq![shorter].drop_last() =~= Seq::<Seq<char>>::empty());
        assert(shorter.push(whole.last()) =~= whole);
        assert(text::words(whole) =~= seq![whole]);
    }
}

/// The words of a sequence's spelling are the spellings of its chords.
proof fn lemma_sequence_words(words: Seq<Seq<char>>)
    requires
        words.len() > 0,
        chords_of(words) is Some,
    ensures
        chords_of(words)->Some_0.len() == words.len(),
        chords_of(text::words(sequence_text(chords_of(words)->Some_0))) == chords_of(words),
    decreases words.len(),
{
    let chords = chords_of(words)->Some_0;
    let before = words.drop_last();
    let last = chord_of(words.last())->Some_0;
    law_chord_text_parses_back(words.last());
    assert(chords.drop_last() =~= chords_of(before)->Some_0);
    if words.len() == 1 {
        assert(before =~= Seq::empty());
        assert(chords =~= seq![last]);
        lemma_one_word(last.text());
        assert(seq![last.text()].drop_last() =~= Seq::<Seq<char>>::empty());
        reveal_with_fuel(chords_of, 2);
    } else {
        lemma_sequence_words(before);
        let start = sequence_text(chords.drop_last());
        lemma_last_word(start, last.text());
        let spelled = text::words(start).push(last.text());
        assert(spelled.drop_last() =~= text::words(start));
    }
}

/// The canonical spelling of a parsed key sequence parses back to that sequence.
pub proof fn law_sequence_text_parses_back(spelling: Seq<char>)
    requires
        sequence_of(spelling) is Some,
    ensures
        sequence_of(sequence_text(sequence_of(spelling)->Some_0)) == sequence_of(spelling),
{
    lemma_sequence_words(text::words(spelling));
}

} // verus!
