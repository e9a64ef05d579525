//! The commands a client can send, and how a line of text is read as one.
//!
//! A line is split into words at white space. The first word names the
//! command: `join_game`, or `make_play` followed by exactly one more word, the
//! number of a cell from 1 to 9.

use vstd::prelude::*;

verus! {

/// A command of a client.
#[derive(Debug, Clone, Copy, PartialEq, Eq, Structural)]
pub enum Command {
    /// Ask for a seat in a match.
    JoinGame,
    /// Mark the cell numbered `position`, counted from 1 along the rows.
    MakeMove { position: usize },
}

/// Why a line is no command.
#[derive(Debug, Clone, Copy, PartialEq, Eq, Structural)]
pub enum ParseCommandError {
    /// The line is blank or its first word names no command.
    InvalidCommand,
    /// The command is known, but what follows it is no cell number.
    InvalidParameters,
}

/// White space: the code points with the Unicode property `White_Space`.
pub open spec fn is_blank(c: char) -> bool {
    let u = c as u32;
    ||| 0x09 <= u <= 0x0D
    ||| u == 0x20
    ||| u == 0x85
    ||| u == 0xA0
    ||| u == 0x1680
    ||| 0x2000 <= u <= 0x200A
    ||| u == 0x2028
    ||| u == 0x2029
    ||| u == 0x202F
    ||| u == 0x205F
    ||| u == 0x3000
}

/// A line read up to some point: the words that are complete, and the word
/// that the last character read belongs to (empty after white space).
pub struct Scan {
    pub words: Seq<Seq<char>>,
    pub word: Seq<char>,
}

impl Scan {
    /// The words once the line ends here: an unfinished word counts.
    pub open spec fn finish(self) -> Seq<Seq<char>> {
        if self.word.len() > 0 {
            self.words.push(self.word)
        } else {
            self.words
        }
    }

    /// The scan after one more character.
    pub open spec fn step(self, c: char) -> Scan {
        if is_blank(c) {
            Scan { words: self.finish(), word: Seq::empty() }
        } else {
            Scan { words: self.words, word: self.word.push(c) }
        }
    }
}

/// The line `s` read from left to right.
pub open spec fn scan(s: Seq<char>) -> Scan
    decreases s.len(),
{
    if s.len() == 0 {
        Scan { words: Seq::empty(), word: Seq::empty() }
    } else {
        scan(s.drop_last()).step(s.last())
    }
}

/// The words of a line: its maximal runs of characters that are not white
/// space, in order.
pub open spec fn words(s: Seq<char>) -> Seq<Seq<char>> {
    scan(s).finish()
}

/// The value of a decimal digit.
pub open spec fn digit(c: char) -> Option<nat> {
    if '0' <= c <= '9' {
        Some((c as u32 - '0' as u32) as nat)
    } else {
        None
    }
}

/// The number that a non-empty run of decimal digits writes.
pub open spec fn decimal(s: Seq<char>) -> Option<nat>
    decreases s.len(),
{
    if s.len() == 0 {
        None
    } else if s.len() == 1 {
        digit(s[0])
    } else {
        match (decimal(s.drop_last()), digit(s.last())) {
            (Some(n), Some(d)) => Some(10 * n + d),
            _ => None,
        }
    }
}

/// The number that a word writes: decimal digits, with or without a plus
/// sign in front.
pub open spec fn number(w: Seq<char>) -> Option<nat> {
    if w.len() > 0 && w[0] == '+' {
        decimal(w.skip(1))
    } else {
        decimal(w)
    }
}

/// The cell number that a word writes: a number from 1 to 9.
pub open spec fn position(w: Seq<char>) -> Option<usize> {
    match number(w) {
        Some(n) => if 1 <= n <= 9 {
            Some(n as usize)
        } else {
            None
        },
        None => None,
    }
}

/// What a line means.
pub open spec fn parse(s: Seq<char>) -> Result<Command, ParseCommandError> {
    let w = words(s);
    if w.len() == 0 {
        Err(ParseCommandError::InvalidCommand)
    } else if w[0] == "make_play"@ && w.len() == 2 {
        match position(w[1]) {
            Some(p) => Ok(Command::MakeMove { position: p }),
            None => Err(ParseCommandError::InvalidParameters),
        }
    } else if w[0] == "join_game"@ {
        Ok(Command::JoinGame)
    } else {
        Err(ParseCommandError::InvalidCommand)
    }
}

/// A word: not empty, and free of white space.
pub open spec fn is_word(w: Seq<char>) -> bool {
    &&& w.len() > 0
    &&& forall|k: int| 0 <= k < w.len() ==> !is_blank(#[trigger] w[k])
}

/// While a line is read, every complete word is a word, and the unfinished
/// one is free of white space.
proof fn lemma_scan_keeps_words(s: Seq<char>)
    ensures
        forall|i: int| 0 <= i < scan(s).words.len() ==> is_word(#[trigger] scan(s).words[i]),
        forall|k: int| 0 <= k < scan(s).word.len() ==> !is_blank(#[trigger] scan(s).word[k]),
    decreases s.len(),
{
    if s.len() > 0 {
        let before = scan(s.drop_last());
        lemma_scan_keeps_words(s.drop_last());
    }
}

/// Every word of a line is not empty and free of white space.
pub proof fn lemma_words_are_words(s: Seq<char>)
    ensures
        forall|i: int| 0 <= i < words(s).len() ==> is_word(#[trigger] words(s)[i]),
{
    lemma_scan_keeps_words(s);
}

/// A line that is one word has exactly that word.
pub proof fn lemma_word_alone(s: Seq<char>)
    requires
        is_word(s),
    ensures
        words(s) == seq![s],
{
    lemma_scan_without_blanks(s);
}

/// Reading a line without white space completes no word.
proof fn lemma_scan_without_blanks(s: Seq<char>)
    requires
        forall|k: int| 0 <= k < s.len() ==> !is_blank(#[trigger] s[k]),
    ensures
        scan(s).words == Seq::<Seq<char>>::empty(),
        scan(s).word == s,
    decreases s.len(),
{
    if s.len() > 0 {
        lemma_scan_without_blanks(s.drop_last());
    }
}

/// White space at the end of a line changes none of its words.
pub proof fn lemma_trailing_blank(s: Seq<char>, c: char)
    requires
        is_blank(c),
    ensures
        words(s.push(c)) == words(s),
{
    assert(s.push(c).drop_last() =~= s);
}

/// A line is read as a move only with a cell number from 1 to 9.
pub proof fn lemma_cell_numbers_in_range(s: Seq<char>)
    ensures
        parse(s) matches Ok(Command::MakeMove { position }) ==> 1 <= position <= 9,
{
}

/// The words held in `parts`, each as a sequence of characters.
pub open spec fn words_of(parts: Seq<Vec<char>>) -> Seq<Seq<char>> {
    Seq::new(parts.len(), |i: int| parts[i]@)
}

impl Command {
    /// Reads a line as a command.
    pub fn from_str(s: &str) -> (result: Result<Command, ParseCommandError>)
        ensures
            result == parse(s@),
    {
        let parts = split_whitespace(s);
        if parts.len() == 0 {
            return Err(ParseCommandError::InvalidCommand);
        }
        if word_is(&parts[0], "make_play") && parts.len() == 2 {
            match parse_position(&parts[1]) {
                Some(position) => Ok(Command::MakeMove { position }),
                None => Err(ParseCommandError::InvalidParameters),
            }
        } else if word_is(&parts[0], "join_game") {
            Ok(Command::JoinGame)
        } else {
            Err(ParseCommandError::InvalidCommand)
        }
    }
}

/// Whether `c` is white space.
pub fn is_separator(c: char) -> (blank: bool)
    ensures
        blank == is_blank(c),
{
    let u: u32 = c as u32;
    (0x09 <= u && u <= 0x0D) || u == 0x20 || u == 0x85 || u == 0xA0 || u == 0x1680 || (0x2000 <= u
        && u <= 0x200A) || u == 0x2028 || u == 0x2029 || u == 0x202F || u == 0x205F || u == 0x3000
}

/// Splits a line into its words.
pub fn split_whitespace(s: &str) -> (parts: Vec<Vec<char>>)
    ensures
        words_of(parts@) == words(s@),
{
    let mut parts: Vec<Vec<char>> = Vec::new();
    let mut word: Vec<char> = Vec::new();
    for c in it: s.chars()
        invariant
            it.seq() == s@,
            scan(s@.take(it.index() as int)).words == words_of(parts@),
            scan(s@.take(it.index() as int)).word == word@,
    {
        proof {
            let read = s@.take(it.index() + 1);
            assert(read.drop_last() == s@.take(it.index() as int));
        }
        if is_separator(c) {
            if word.len() > 0 {
                parts.push(word);
                word = Vec::new();
            }
        } else {
            word.push(c);
        }
    }
    assert(s@.take(s@.len() as int) == s@);
    if word.len() > 0 {
        parts.push(word);
    }
    parts
}

/// Whether the word is spelled exactly as `text`.
pub fn word_is(word: &Vec<char>, text: &str) -> (same: bool)
    ensures
        same == (word@ == text@),
{
    let mut n: usize = 0;
    for c in it: text.chars()
        invariant
            it.seq() == text@,
            n == it.index(),
            n <= word.len(),
            word@.take(n as int) == text@.take(n as int),
    {
        if n >= word.len() || word[n] != c {
            return false;
        }
        n += 1;
    }
    assert(text@.take(text@.len() as int) == text@);
    if n == word.len() {
        assert(word@.take(n as int) == word@);
        true
    } else {
        false
    }
}

/// The number a word writes, where it is at most 9; `None` where the word is
/// no number, and 10 for every larger number.
fn parse_small_number(word: &Vec<char>) -> (value: Option<usize>)
    ensures
        match number(word@) {
            Some(n) => value == Some(
                if n < 10 {
                    n as usize
                } else {
                    10usize
                },
            ),
            None => value is None,
        },
{
    let start: usize = if word.len() > 0 && word[0] == '+' {
        1
    } else {
        0
    };
    let ghost digits = word@.skip(start as int);
    assert(number(word@) == decimal(digits)) by {
        assert(word@.skip(0) == word@);
    }
    if start >= word.len() {
        return None;
    }
    let mut value: usize = 0;
    let mut i: usize = start;
    while i < word.len()
        invariant
            start <= i <= word.len(),
            start < word.len(),
            digits == word@.skip(start as int),
            number(word@) == decimal(digits),
            value <= 10,
            i == start ==> value == 0,
            i > start ==> (decimal(digits.take(i - start)) matches Some(n) && value == if n < 10 {
                n as usize
            } else {
                10usize
            }),
        decreases word.len() - i,
    {
        let c = word[i];
        let ghost read = digits.take(i + 1 - start);
        proof {
            assert(read.drop_last() == digits.take(i - start));
        }
        if !('0' <= c && c <= '9') {
            proof {
                lemma_decimal_needs_digits(digits, i - start);
            }
            return None;
        }
        let d: usize = (c as u32 - '0' as u32) as usize;
        value = if value >= 10 {
            10
        } else if value * 10 + d >= 10 {
            10
        } else {
            value * 10 + d
        };
        i += 1;
    }
    assert(digits.take(digits.len() as int) == digits);
    Some(value)
}

/// A run with a character that is no digit writes no number.
proof fn lemma_decimal_needs_digits(s: Seq<char>, i: int)
    requires
        0 <= i < s.len(),
        digit(s[i]) is None,
    ensures
        decimal(s) is None,
    decreases s.len(),
{
    if s.len() > 1 && i < s.len() - 1 {
        lemma_decimal_needs_digits(s.drop_last(), i);
    }
}

/// The cell number that a word writes, if it writes one.
pub fn parse_position(word: &Vec<char>) -> (cell: Option<usize>)
    ensures
        cell == position(word@),
{
    match parse_small_number(word) {
        Some(n) => if 1 <= n && n <= 9 {
            Some(n)
        } else {
            None
        },
        None => None,
    }
}

} // verus!
