//! Beat charts: the text format, its tokens, and the sheet compiled from it.
//!
//! A chart is a run of atoms separated by white space:
//!
//! ```text
//! #bpm <number> #offset <number> (norm <U|D|L|R> <time offset>)*
//! ```
//!
//! A time offset is written `[fourths;]beats[|bars]`. Each projectile's
//! offset counts from the arrival of the one before it, the first one's from
//! the start offset.

use vstd::prelude::*;
use crate::fixed::{div_floor, saturate, saturate_wide, Fixed};
use crate::game::{Direction, Projectile, ProjectileType};
use crate::text::{
    chars_of, find_char, is_space, is_whitespace, parse_number, parse_unsigned, spec_number,
    spec_unsigned,
};

verus! {

/// Why a chart could not be compiled.
#[derive(Debug, PartialEq, Eq)]
pub enum ParseError {
    /// An atom that is no token; it holds the text that could not be read.
    UnrecognizedToken(String),
    /// A token of another kind than the grammar wants at its place.
    UnexpectedToken(Token),
    /// The chart ends where the grammar wants a token.
    UnexpectedEof,
}

/// A `ParseError` as a mathematical value.
pub enum ParseErrorView {
    UnrecognizedToken(Seq<char>),
    UnexpectedToken(Token),
    UnexpectedEof,
}

impl View for ParseError {
    type V = ParseErrorView;

    open spec fn view(&self) -> ParseErrorView {
        match self {
            ParseError::UnrecognizedToken(text) => ParseErrorView::UnrecognizedToken(text@),
            ParseError::UnexpectedToken(token) => ParseErrorView::UnexpectedToken(*token),
            ParseError::UnexpectedEof => ParseErrorView::UnexpectedEof,
        }
    }
}

/// A result with its error taken as a mathematical value.
pub open spec fn outcome<T>(r: Result<T, ParseError>) -> Result<T, ParseErrorView> {
    match r {
        Ok(value) => Ok(value),
        Err(e) => Err(e@),
    }
}

/// A stretch of music time in musical units.
#[derive(Clone, Copy, Debug, PartialEq, Eq, Structural)]
pub struct TimeOffset {
    /// Quarter beats.
    pub fourths: u32,
    pub beats: u32,
    /// Bars of four beats.
    pub bars: u32,
}

/// One atom of a chart.
#[derive(Clone, Copy, Debug, PartialEq, Eq, Structural)]
pub enum Token {
    /// `#bpm`: the tempo follows.
    Bpm,
    /// `#offset`: the start offset follows.
    Offset,
    TimeOffset(TimeOffset),
    /// `U`, `D`, `L` or `R`.
    Direction(Direction),
    Number(Fixed),
    /// `norm`.
    Projectile(ProjectileType),
}

/// Tokens waiting to be read, first to last.
pub struct TokenStream {
    tokens: Vec<Token>,
    next: usize,
}

impl View for TokenStream {
    type V = Seq<Token>;

    /// The tokens not yet read.
    closed spec fn view(&self) -> Seq<Token> {
        if self.next <= self.tokens.len() {
            self.tokens@.skip(self.next as int)
        } else {
            Seq::empty()
        }
    }
}

impl TokenStream {
    /// A stream that hands out `tokens` in order.
    pub fn new(tokens: Vec<Token>) -> (stream: TokenStream)
        ensures
            stream@ == tokens@,
    {
        assert(tokens@.skip(0) =~= tokens@);
        TokenStream { tokens, next: 0 }
    }

    /// The number of tokens not yet read.
    pub fn len(&self) -> (n: usize)
        ensures
            n == self@.len(),
    {
        if self.next <= self.tokens.len() {
            self.tokens.len() - self.next
        } else {
            0
        }
    }

    /// Takes the next token off the stream; fails at its end.
    pub fn next_token(&mut self) -> (r: Result<Token, ParseError>)
        ensures
            old(self)@.len() == 0 ==> outcome(r) == Err::<Token, ParseErrorView>(
                ParseErrorView::UnexpectedEof,
            ) && final(self)@ == old(self)@,
            old(self)@.len() > 0 ==> r == Ok::<Token, ParseError>(old(self)@[0]) && final(self)@
                == old(self)@.drop_first(),
    {
        if self.next < self.tokens.len() {
            let token = self.tokens[self.next];
            assert(self.tokens@.skip(self.next as int).drop_first() =~= self.tokens@.skip(
                self.next + 1,
            ));
            self.next = self.next + 1;
            Ok(token)
        } else {
            Err(ParseError::UnexpectedEof)
        }
    }
}

/// The text `chars[start..end]` of `source` as an unrecognized token.
fn unrecognized(source: &str, chars: &Vec<char>, start: usize, end: usize) -> (e: ParseError)
    requires
        chars@ == source@,
        start <= end <= chars.len(),
    ensures
        e@ == ParseErrorView::UnrecognizedToken(chars@.subrange(start as int, end as int)),
{
    ParseError::UnrecognizedToken(source.substring_char(start, end).to_owned())
}

impl TimeOffset {
    /// Seconds in one beat at `bpm` beats per minute.
    pub open spec fn spec_beat(bpm: Fixed) -> Fixed {
        Fixed::spec_from_int(60).spec_div(bpm)
    }

    /// The stretch in seconds at `bpm` beats per minute: a quarter of a beat
    /// for each fourth, a beat for each beat, four beats for each bar.
    pub open spec fn spec_time(self, bpm: Fixed) -> Fixed {
        let beat = Self::spec_beat(bpm).raw as int;
        Fixed {
            raw: saturate((self.fourths * beat) / 4 + self.beats * beat + self.bars * beat * 4),
        }
    }

    /// What `beats[|bars]` reads as, after `fourths` fourths; the error is
    /// the first part that is no unsigned integer.
    pub open spec fn spec_parse_beats(s: Seq<char>, fourths: u32) -> Result<
        TimeOffset,
        ParseErrorView,
    > {
        match s.index_of_first('|') {
            Some(bar) => match spec_unsigned(s.take(bar)) {
                Some(beats) => match spec_unsigned(s.skip(bar + 1)) {
                    Some(bars) => Ok(TimeOffset { fourths, beats, bars }),
                    None => Err(ParseErrorView::UnrecognizedToken(s.skip(bar + 1))),
                },
                None => Err(ParseErrorView::UnrecognizedToken(s.take(bar))),
            },
            None => match spec_unsigned(s) {
                Some(beats) => Ok(TimeOffset { fourths, beats, bars: 0 }),
                None => Err(ParseErrorView::UnrecognizedToken(s)),
            },
        }
    }

    /// What `[fourths;]beats[|bars]` reads as: what stands before the first
    /// `;` is the fourths, what stands after the first `|` behind it the
    /// bars, and the beats stand between. Fourths and bars default to zero.
    /// The error is the first part that is no unsigned integer.
    pub open spec fn spec_parse(s: Seq<char>) -> Result<TimeOffset, ParseErrorView> {
        match s.index_of_first(';') {
            Some(semi) => match spec_unsigned(s.take(semi)) {
                Some(fourths) => Self::spec_parse_beats(s.skip(semi + 1), fourths),
                None => Err(ParseErrorView::UnrecognizedToken(s.take(semi))),
            },
            None => Self::spec_parse_beats(s, 0),
        }
    }

    /// Reads `chars[start..end]` as `beats[|bars]`, after `fourths` fourths.
    fn parse_beats_range(
        source: &str,
        chars: &Vec<char>,
        start: usize,
        end: usize,
        fourths: u32,
    ) -> (r: Result<TimeOffset, ParseError>)
        requires
            chars@ == source@,
            start <= end <= chars.len(),
        ensures
            outcome(r) == TimeOffset::spec_parse_beats(
                chars@.subrange(start as int, end as int),
                fourths,
            ),
    {
        let ghost s = chars@.subrange(start as int, end as int);
        match find_char(chars, start, end, '|') {
            Some(bar) => {
                assert(s.take(bar - start) =~= chars@.subrange(start as int, bar as int));
                assert(s.skip(bar - start + 1) =~= chars@.subrange(bar + 1, end as int));
                let beats: u32 = match parse_unsigned(chars, start, bar) {
                    Some(value) => value,
                    None => {
                        return Err(unrecognized(source, chars, start, bar));
                    },
                };
                let bars: u32 = match parse_unsigned(chars, bar + 1, end) {
                    Some(value) => value,
                    None => {
                        return Err(unrecognized(source, chars, bar + 1, end));
                    },
                };
                Ok(TimeOffset { fourths, beats, bars })
            },
            None => {
                match parse_unsigned(chars, start, end) {
                    Some(beats) => Ok(TimeOffset { fourths, beats, bars: 0 }),
                    None => Err(unrecognized(source, chars, start, end)),
                }
            },
        }
    }

    /// Reads `chars[start..end]` as a time offset.
    pub(crate) fn parse_range(source: &str, chars: &Vec<char>, start: usize, end: usize) -> (r:
        Result<TimeOffset, ParseError>)
        requires
            chars@ == source@,
            start <= end <= chars.len(),
        ensures
            outcome(r) == TimeOffset::spec_parse(chars@.subrange(start as int, end as int)),
    {
        let ghost s = chars@.subrange(start as int, end as int);
        match find_char(chars, start, end, ';') {
            Some(semi) => {
                assert(s.take(semi - start) =~= chars@.subrange(start as int, semi as int));
                assert(s.skip(semi - start + 1) =~= chars@.subrange(semi + 1, end as int));
                match parse_unsigned(chars, start, semi) {
                    Some(fourths) => TimeOffset::parse_beats_range(
                        source,
                        chars,
                        semi + 1,
                        end,
                        fourths,
                    ),
                    None => Err(unrecognized(source, chars, start, semi)),
                }
            },
            None => TimeOffset::parse_beats_range(source, chars, start, end, 0),
        }
    }

    /// Reads a time offset written `[fourths;]beats[|bars]`.
    pub fn parse(source: &str) -> (r: Result<TimeOffset, ParseError>)
        ensures
            outcome(r) == TimeOffset::spec_parse(source@),
    {
        let chars = chars_of(source);
        assert(chars@.subrange(0, chars.len() as int) =~= source@);
        TimeOffset::parse_range(source, &chars, 0, chars.len())
    }

    /// The stretch in seconds at `bpm` beats per minute.
    pub fn time(&self, bpm: Fixed) -> (seconds: Fixed)
        ensures
            seconds == self.spec_time(bpm),
    {
        let beat: i128 = Fixed::from_int(60).div(bpm).raw as i128;
        let fourths: i128 = self.fourths as i128;
        let beats: i128 = self.beats as i128;
        let bars: i128 = self.bars as i128;
        assert(-0x8000_0000_0000_0000_0000_0000 <= fourths * beat <= 0x8000_0000_0000_0000_0000_0000
            && -0x8000_0000_0000_0000_0000_0000 <= beats * beat
            <= 0x8000_0000_0000_0000_0000_0000 && -0x8000_0000_0000_0000_0000_0000 <= bars * beat
            <= 0x8000_0000_0000_0000_0000_0000) by (nonlinear_arith)
            requires
                -0x8000_0000_0000_0000 <= beat <= 0x8000_0000_0000_0000,
                0 <= fourths <= 0x1_0000_0000,
                0 <= beats <= 0x1_0000_0000,
                0 <= bars <= 0x1_0000_0000,
        ;
        saturate_wide(div_floor(fourths * beat, 4) + beats * beat + bars * beat * 4)
    }
}

/// Whether `chars[start..end]` spells `word`.
fn range_is(chars: &Vec<char>, start: usize, end: usize, word: &str) -> (same: bool)
    requires
        start <= end <= chars.len(),
    ensures
        same == (chars@.subrange(start as int, end as int) == word@),
{
    let letters = chars_of(word);
    let ghost part = chars@.subrange(start as int, end as int);
    if letters.len() != end - start {
        return false;
    }
    let mut i: usize = 0;
    while i < letters.len()
        invariant
            i <= letters.len(),
            start <= end <= chars.len(),
            letters.len() == end - start,
            letters@ == word@,
            part == chars@.subrange(start as int, end as int),
            forall|j: int| 0 <= j < i ==> part[j] == letters@[j],
        decreases letters.len() - i,
    {
        if chars[start + i] != letters[i] {
            assert(part[i as int] != letters@[i as int]);
            return false;
        }
        i = i + 1;
    }
    assert(part =~= letters@);
    true
}

impl Token {
    /// The token that a word of the chart format stands for.
    pub open spec fn spec_keyword(s: Seq<char>) -> Option<Token> {
        if s == "#bpm"@ {
            Some(Token::Bpm)
        } else if s == "#offset"@ {
            Some(Token::Offset)
        } else if s == "U"@ {
            Some(Token::Direction(Direction::Up))
        } else if s == "D"@ {
            Some(Token::Direction(Direction::Down))
        } else if s == "L"@ {
            Some(Token::Direction(Direction::Left))
        } else if s == "R"@ {
            Some(Token::Direction(Direction::Right))
        } else if s == "norm"@ {
            Some(Token::Projectile(ProjectileType::Normal))
        } else {
            None
        }
    }

    /// What an atom reads as: a time offset if it is one, else a number if
    /// it is one, else a word of the format; the whole atom is the error
    /// where it is none of them.
    pub open spec fn spec_parse(s: Seq<char>) -> Result<Token, ParseErrorView> {
        match TimeOffset::spec_parse(s) {
            Ok(offset) => Ok(Token::TimeOffset(offset)),
            Err(_) => match spec_number(s) {
                Some(number) => Ok(Token::Number(number)),
                None => match Self::spec_keyword(s) {
                    Some(token) => Ok(token),
                    None => Err(ParseErrorView::UnrecognizedToken(s)),
                },
            },
        }
    }

    /// Reads `chars[start..end]` as a token.
    pub(crate) fn parse_range(source: &str, chars: &Vec<char>, start: usize, end: usize) -> (r:
        Result<Token, ParseError>)
        requires
            chars@ == source@,
            start <= end <= chars.len(),
        ensures
            outcome(r) == Token::spec_parse(chars@.subrange(start as int, end as int)),
    {
        if let Ok(offset) = TimeOffset::parse_range(source, chars, start, end) {
            return Ok(Token::TimeOffset(offset));
        }
        if let Some(number) = parse_number(chars, start, end) {
            return Ok(Token::Number(number));
        }
        if range_is(chars, start, end, "#bpm") {
            Ok(Token::Bpm)
        } else if range_is(chars, start, end, "#offset") {
            Ok(Token::Offset)
        } else if range_is(chars, start, end, "U") {
            Ok(Token::Direction(Direction::Up))
        } else if range_is(chars, start, end, "D") {
            Ok(Token::Direction(Direction::Down))
        } else if range_is(chars, start, end, "L") {
            Ok(Token::Direction(Direction::Left))
        } else if range_is(chars, start, end, "R") {
            Ok(Token::Direction(Direction::Right))
        } else if range_is(chars, start, end, "norm") {
            Ok(Token::Projectile(ProjectileType::Normal))
        } else {
            Err(unrecognized(source, chars, start, end))
        }
    }

    /// Reads one atom as a token.
    pub fn parse(source: &str) -> (r: Result<Token, ParseError>)
        ensures
            outcome(r) == Token::spec_parse(source@),
    {
        let chars = chars_of(source);
        assert(chars@.subrange(0, chars.len() as int) =~= source@);
        Token::parse_range(source, &chars, 0, chars.len())
    }
}

/// The length of the run of characters before the first white space.
pub open spec fn atom_len(s: Seq<char>) -> nat
    decreases s.len(),
{
    if s.len() == 0 || is_whitespace(s[0]) {
        0
    } else {
        1 + atom_len(s.drop_first())
    }
}

/// The atom at the start of a text runs up to its end or to white space.
pub proof fn lemma_atom_len(s: Seq<char>)
    ensures
        atom_len(s) <= s.len(),
        forall|i: int| 0 <= i < atom_len(s) ==> !is_whitespace(#[trigger] s[i]),
        atom_len(s) < s.len() ==> is_whitespace(s[atom_len(s) as int]),
    decreases s.len(),
{
    if s.len() > 0 && !is_whitespace(s[0]) {
        lemma_atom_len(s.drop_first());
        assert forall|i: int| 0 <= i < atom_len(s) implies !is_whitespace(#[trigger] s[i]) by {
            if i > 0 {
                assert(s[i] == s.drop_first()[i - 1]);
            }
        }
    }
}

/// The atoms of a text: its longest runs of characters that are no white
/// space, first to last.
pub open spec fn spec_atoms(s: Seq<char>) -> Seq<Seq<char>>
    decreases s.len(),
{
    if s.len() == 0 {
        Seq::empty()
    } else if is_whitespace(s[0]) {
        spec_atoms(s.drop_first())
    } else {
        proof {
            lemma_atom_len(s);
        }
        seq![s.take(atom_len(s) as int)] + spec_atoms(s.skip(atom_len(s) as int))
    }
}

/// The tokens that atoms read as, or the error of the first atom that is
/// no token.
pub open spec fn spec_tokens(atoms: Seq<Seq<char>>) -> Result<Seq<Token>, ParseErrorView>
    decreases atoms.len(),
{
    if atoms.len() == 0 {
        Ok(Seq::empty())
    } else {
        match spec_tokens(atoms.drop_last()) {
            Ok(tokens) => match Token::spec_parse(atoms.last()) {
                Ok(token) => Ok(tokens.push(token)),
                Err(e) => Err(e),
            },
            Err(e) => Err(e),
        }
    }
}

/// The tokens of a chart's text.
pub open spec fn spec_lex(s: Seq<char>) -> Result<Seq<Token>, ParseErrorView> {
    spec_tokens(spec_atoms(s))
}

/// A run of characters that are no white space, ended by white space or by
/// the end of the text, is the atom at the start of the text.
proof fn lemma_atom_len_is(s: Seq<char>, n: int)
    requires
        0 <= n <= s.len(),
        forall|i: int| 0 <= i < n ==> !is_whitespace(#[trigger] s[i]),
        n < s.len() ==> is_whitespace(s[n]),
    ensures
        atom_len(s) == n,
    decreases n,
{
    if n > 0 {
        assert(!is_whitespace(s[0]));
        assert forall|i: int| 0 <= i < n - 1 implies !is_whitespace(
            #[trigger] s.drop_first()[i],
        ) by {
            assert(s.drop_first()[i] == s[i + 1]);
        }
        lemma_atom_len_is(s.drop_first(), n - 1);
    }
}

/// Once an atom fails to read, the error stays, whatever atoms follow.
proof fn lemma_tokens_error_stays(atoms: Seq<Seq<char>>, more: Seq<Seq<char>>)
    requires
        spec_tokens(atoms) is Err,
    ensures
        spec_tokens(atoms + more) == spec_tokens(atoms),
    decreases more.len(),
{
    if more.len() == 0 {
        assert(atoms + more =~= atoms);
    } else {
        lemma_tokens_error_stays(atoms, more.drop_last());
        assert((atoms + more).drop_last() =~= atoms + more.drop_last());
    }
}

/// Where the atom that starts at `chars[start]` ends.
fn atom_end(chars: &Vec<char>, start: usize) -> (end: usize)
    requires
        start < chars.len(),
        !is_whitespace(chars@[start as int]),
    ensures
        start < end <= chars.len(),
        end - start == atom_len(chars@.skip(start as int)),
{
    let mut end: usize = start + 1;
    while end < chars.len() && !is_space(chars[end])
        invariant
            start < end <= chars.len(),
            forall|k: int| start <= k < end ==> !is_whitespace(#[trigger] chars@[k]),
        decreases chars.len() - end,
    {
        end = end + 1;
    }
    proof {
        lemma_atom_len_is(chars@.skip(start as int), end - start);
    }
    end
}

/// Splits a chart's text at white space and reads each atom as a token.
pub fn parse_tokes(source: &str) -> (r: Result<Vec<Token>, ParseError>)
    ensures
        match r {
            Ok(tokens) => spec_lex(source@) == Ok::<Seq<Token>, ParseErrorView>(tokens@),
            Err(e) => spec_lex(source@) == Err::<Seq<Token>, ParseErrorView>(e@),
        },
{
    let chars = chars_of(source);
    let n: usize = chars.len();
    let mut tokens: Vec<Token> = Vec::new();
    let ghost mut atoms: Seq<Seq<char>> = Seq::empty();
    let mut i: usize = 0;
    proof {
        assert(chars@.skip(0) =~= chars@);
        assert(atoms + spec_atoms(chars@) =~= spec_atoms(chars@));
    }
    while i < n
        invariant
            i <= n,
            n == chars.len(),
            chars@ == source@,
            spec_atoms(chars@) == atoms + spec_atoms(chars@.skip(i as int)),
            spec_tokens(atoms) == Ok::<Seq<Token>, ParseErrorView>(tokens@),
        decreases n - i,
    {
        let ghost rest = chars@.skip(i as int);
        if is_space(chars[i]) {
            proof {
                assert(rest.drop_first() =~= chars@.skip(i + 1));
            }
            i = i + 1;
        } else {
            let end: usize = atom_end(&chars, i);
            let ghost atom = chars@.subrange(i as int, end as int);
            proof {
                assert(rest.take(end - i) =~= atom);
                assert(rest.skip(end - i) =~= chars@.skip(end as int));
                assert(atoms + (seq![atom] + spec_atoms(chars@.skip(end as int))) =~= atoms.push(
                    atom,
                ) + spec_atoms(chars@.skip(end as int)));
                assert(atoms.push(atom).drop_last() =~= atoms);
            }
            match Token::parse_range(source, &chars, i, end) {
                Ok(token) => {
                    tokens.push(token);
                },
                Err(e) => {
                    proof {
                        lemma_tokens_error_stays(
                            atoms.push(atom),
                            spec_atoms(chars@.skip(end as int)),
                        );
                    }
                    return Err(e);
                },
            }
            proof {
                atoms = atoms.push(atom);
            }
            i = end;
        }
    }
    proof {
        assert(atoms + spec_atoms(chars@.skip(n as int)) =~= atoms);
    }
    Ok(tokens)
}

/// A `Sheet` as a mathematical value.
pub struct SheetView {
    pub bpm: Fixed,
    pub start_offset: Fixed,
    pub projectiles: Seq<Projectile>,
}

/// A compiled chart: tempo, start offset, and the projectiles in the order
/// the chart names them.
pub struct Sheet {
    /// Tempo in beats per minute.
    pub bpm: Fixed,
    /// Seconds of music before the first offset starts counting.
    pub start_offset: Fixed,
    pub projectiles: Vec<Projectile>,
}

impl View for Sheet {
    type V = SheetView;

    open spec fn view(&self) -> SheetView {
        SheetView {
            bpm: self.bpm,
            start_offset: self.start_offset,
            projectiles: self.projectiles@,
        }
    }
}

impl Default for Sheet {
    /// The empty sheet: no tempo, no offset, no projectiles.
    fn default() -> (sheet: Sheet)
        ensures
            sheet@ == (SheetView {
                bpm: Fixed::spec_zero(),
                start_offset: Fixed::spec_zero(),
                projectiles: Seq::empty(),
            }),
    {
        Sheet { bpm: Fixed::zero(), start_offset: Fixed::zero(), projectiles: Vec::new() }
    }
}

impl Sheet {
    /// What a header clause reads as: the number behind `marker`.
    pub open spec fn spec_header(tokens: Seq<Token>, marker: Token) -> Result<
        Fixed,
        ParseErrorView,
    > {
        if tokens.len() == 0 {
            Err(ParseErrorView::UnexpectedEof)
        } else if tokens[0] != marker {
            Err(ParseErrorView::UnexpectedToken(tokens[0]))
        } else if tokens.len() == 1 {
            Err(ParseErrorView::UnexpectedEof)
        } else {
            match tokens[1] {
                Token::Number(number) => Ok(number),
                other => Err(ParseErrorView::UnexpectedToken(other)),
            }
        }
    }

    /// The number of tokens that reading a header clause takes off the
    /// stream: up to and with the first that does not fit.
    pub open spec fn spec_header_len(tokens: Seq<Token>, marker: Token) -> int {
        if tokens.len() == 0 {
            0
        } else if tokens[0] != marker || tokens.len() == 1 {
            1
        } else {
            2
        }
    }

    /// The projectiles that a chart's body reads as: triples of kind,
    /// direction and time offset, each arriving its offset after the one
    /// before it, the first one after `cursor`.
    pub open spec fn spec_body(tokens: Seq<Token>, bpm: Fixed, cursor: Fixed) -> Result<
        Seq<Projectile>,
        ParseErrorView,
    >
        decreases tokens.len(),
    {
        if tokens.len() == 0 {
            Ok(Seq::empty())
        } else {
            match Projectile::spec_parse(tokens, bpm, cursor) {
                Ok(projectile) => match Self::spec_body(
                    tokens.skip(3),
                    bpm,
                    projectile.arrival_time,
                ) {
                    Ok(rest) => Ok(seq![projectile] + rest),
                    Err(e) => Err(e),
                },
                Err(e) => Err(e),
            }
        }
    }

    /// The sheet that a chart's tokens read as: tempo clause, offset clause,
    /// body.
    pub open spec fn spec_parse_tokens(tokens: Seq<Token>) -> Result<SheetView, ParseErrorView> {
        match Self::spec_header(tokens, Token::Bpm) {
            Ok(bpm) => match Self::spec_header(tokens.skip(2), Token::Offset) {
                Ok(start_offset) => match Self::spec_body(tokens.skip(4), bpm, start_offset) {
                    Ok(projectiles) => Ok(SheetView { bpm, start_offset, projectiles }),
                    Err(e) => Err(e),
                },
                Err(e) => Err(e),
            },
            Err(e) => Err(e),
        }
    }

    /// The sheet that a chart's text reads as.
    pub open spec fn spec_parse(s: Seq<char>) -> Result<SheetView, ParseErrorView> {
        match spec_lex(s) {
            Ok(tokens) => Self::spec_parse_tokens(tokens),
            Err(e) => Err(e),
        }
    }

    /// Reads the number behind `marker` off the stream.
    fn parse_header(tokens: &mut TokenStream, marker: Token) -> (r: Result<Fixed, ParseError>)
        ensures
            outcome(r) == Sheet::spec_header(old(tokens)@, marker),
            final(tokens)@ == old(tokens)@.skip(Sheet::spec_header_len(old(tokens)@, marker)),
    {
        let ghost before = tokens@;
        proof {
            assert(before.skip(0) =~= before);
            if before.len() > 0 {
                assert(before.drop_first() =~= before.skip(1));
                assert(before.skip(1).len() > 0 ==> before.skip(1).drop_first() =~= before.skip(2)
                    && before.skip(1)[0] == before[1]);
            }
        }
        let first = match tokens.next_token() {
            Ok(token) => token,
            Err(e) => {
                return Err(e);
            },
        };
        if first != marker {
            return Err(ParseError::UnexpectedToken(first));
        }
        let second = match tokens.next_token() {
            Ok(token) => token,
            Err(e) => {
                return Err(e);
            },
        };
        match second {
            Token::Number(number) => Ok(number),
            other => Err(ParseError::UnexpectedToken(other)),
        }
    }

    /// Reads the tempo clause `#bpm <number>` off the stream into the sheet.
    pub fn parse_bpm(&mut self, tokens: &mut TokenStream) -> (r: Result<(), ParseError>)
        ensures
            match Sheet::spec_header(old(tokens)@, Token::Bpm) {
                Ok(bpm) => r is Ok && final(self)@ == (SheetView {
                    bpm,
                    start_offset: old(self).start_offset,
                    projectiles: old(self).projectiles@,
                }),
                Err(e) => outcome(r) == Err::<(), ParseErrorView>(e) && final(self)@ == old(
                    self,
                )@,
            },
            final(tokens)@ == old(tokens)@.skip(Sheet::spec_header_len(old(tokens)@, Token::Bpm)),
    {
        match Sheet::parse_header(tokens, Token::Bpm) {
            Ok(bpm) => {
                self.bpm = bpm;
                Ok(())
            },
            Err(e) => Err(e),
        }
    }

    /// Reads the offset clause `#offset <number>` off the stream into the
    /// sheet.
    pub fn parse_offset(&mut self, tokens: &mut TokenStream) -> (r: Result<(), ParseError>)
        ensures
            match Sheet::spec_header(old(tokens)@, Token::Offset) {
                Ok(start_offset) => r is Ok && final(self)@ == (SheetView {
                    bpm: old(self).bpm,
                    start_offset,
                    projectiles: old(self).projectiles@,
                }),
                Err(e) => outcome(r) == Err::<(), ParseErrorView>(e) && final(self)@ == old(
                    self,
                )@,
            },
            final(tokens)@ == old(tokens)@.skip(
                Sheet::spec_header_len(old(tokens)@, Token::Offset),
            ),
    {
        match Sheet::parse_header(tokens, Token::Offset) {
            Ok(start_offset) => {
                self.start_offset = start_offset;
                Ok(())
            },
            Err(e) => Err(e),
        }
    }

    /// Compiles a chart.
    ///
    /// The text is split into tokens; the tempo clause and the offset clause
    /// are read; then projectiles are read until the tokens run out. Any
    /// error ends the compilation.
    #[verifier::loop_isolation(false)]
    pub fn parse(source: &str) -> (r: Result<Sheet, ParseError>)
        ensures
            match r {
                Ok(sheet) => Sheet::spec_parse(source@) == Ok::<SheetView, ParseErrorView>(
                    sheet@,
                ),
                Err(e) => Sheet::spec_parse(source@) == Err::<SheetView, ParseErrorView>(e@),
            },
    {
        let mut sheet = Sheet::default();
        let mut tokens = match parse_tokes(source) {
            Ok(tokens) => TokenStream::new(tokens),
            Err(e) => {
                return Err(e);
            },
        };
        let ghost all = tokens@;
        if let Err(e) = sheet.parse_bpm(&mut tokens) {
            return Err(e);
        }
        if let Err(e) = sheet.parse_offset(&mut tokens) {
            return Err(e);
        }
        let bpm = sheet.bpm;
        let mut start = sheet.start_offset;
        let mut projectiles: Vec<Projectile> = Vec::new();
        proof {
            assert(all.skip(2).skip(2) =~= all.skip(4));
            assert(tokens@ == all.skip(4));
        }
        let ghost body = Sheet::spec_body(all.skip(4), bpm, sheet.start_offset);
        while tokens.len() > 0
            invariant
                body == match Sheet::spec_body(tokens@, bpm, start) {
                    Ok(rest) => Ok::<Seq<Projectile>, ParseErrorView>(projectiles@ + rest),
                    Err(e) => Err(e),
                },
            decreases tokens@.len(),
        {
            let ghost before = tokens@;
            let ghost done = projectiles@;
            match Projectile::parse(&mut tokens, bpm, start) {
                Ok(projectile) => {
                    start = projectile.arrival_time;
                    projectiles.push(projectile);
                    proof {
                        match Sheet::spec_body(before.skip(3), bpm, start) {
                            Ok(rest) => {
                                assert(done + (seq![projectile] + rest) =~= done.push(projectile)
                                    + rest);
                            },
                            Err(_) => {},
                        }
                    }
                },
                Err(e) => {
                    return Err(e);
                },
            }
        }
        proof {
            assert(projectiles@ + Seq::<Projectile>::empty() =~= projectiles@);
        }
        sheet.projectiles = projectiles;
        Ok(sheet)
    }
}

/// Whole beats last their number times the length of a beat.
pub proof fn lemma_time_of_beats(beats: u32, bpm: Fixed)
    ensures
        (TimeOffset { fourths: 0, beats, bars: 0 }).spec_time(bpm).raw == saturate(
            beats * TimeOffset::spec_beat(bpm).raw,
        ),
{
    let beat = TimeOffset::spec_beat(bpm).raw as int;
    assert(0 * beat == 0) by (nonlinear_arith);
}

/// Four fourths last as long as one beat.
pub proof fn lemma_four_fourths_are_a_beat(bpm: Fixed)
    ensures
        (TimeOffset { fourths: 4, beats: 0, bars: 0 }).spec_time(bpm) == (TimeOffset {
            fourths: 0,
            beats: 1,
            bars: 0,
        }).spec_time(bpm),
        (TimeOffset { fourths: 4, beats: 0, bars: 0 }).spec_time(bpm) == TimeOffset::spec_beat(
            bpm,
        ),
{
    let beat = TimeOffset::spec_beat(bpm).raw as int;
    assert(0 * beat == 0) by (nonlinear_arith);
    assert(1 * beat == beat) by (nonlinear_arith);
    assert((4 * beat) / 4 == beat);
}

/// One bar lasts as long as four beats.
pub proof fn lemma_bar_is_four_beats(bpm: Fixed)
    ensures
        (TimeOffset { fourths: 0, beats: 0, bars: 1 }).spec_time(bpm) == (TimeOffset {
            fourths: 0,
            beats: 4,
            bars: 0,
        }).spec_time(bpm),
        (TimeOffset { fourths: 0, beats: 0, bars: 1 }).spec_time(bpm).raw == saturate(
            4 * TimeOffset::spec_beat(bpm).raw,
        ),
{
    let beat = TimeOffset::spec_beat(bpm).raw as int;
    assert(0 * beat == 0) by (nonlinear_arith);
    assert(1 * beat == beat) by (nonlinear_arith);
}

/// The time offset at place `index` of `tokens`; the empty offset where
/// another token stands there.
pub open spec fn offset_at(tokens: Seq<Token>, index: int) -> TimeOffset {
    match tokens[index] {
        Token::TimeOffset(offset) => offset,
        _ => TimeOffset { fourths: 0, beats: 0, bars: 0 },
    }
}

/// Raw seconds that the time offsets of the first `count` triples of a body
/// add up to.
pub open spec fn offsets_total(tokens: Seq<Token>, bpm: Fixed, count: nat) -> int
    decreases count,
{
    if count == 0 {
        0
    } else {
        offsets_total(tokens, bpm, (count - 1) as nat) + offset_at(
            tokens,
            3 * (count - 1) + 2,
        ).spec_time(bpm).raw
    }
}

/// A time offset lasts no less than nothing where a beat does, and no more
/// than nothing where a beat does.
proof fn lemma_time_sign(offset: TimeOffset, bpm: Fixed)
    ensures
        TimeOffset::spec_beat(bpm).raw >= 0 ==> offset.spec_time(bpm).raw >= 0,
        TimeOffset::spec_beat(bpm).raw <= 0 ==> offset.spec_time(bpm).raw <= 0,
{
    let beat = TimeOffset::spec_beat(bpm).raw as int;
    let fourths = offset.fourths as int;
    let beats = offset.beats as int;
    let bars = offset.bars as int;
    assert(beat >= 0 ==> fourths * beat >= 0 && beats * beat >= 0 && bars * beat >= 0)
        by (nonlinear_arith)
        requires
            fourths >= 0,
            beats >= 0,
            bars >= 0,
    ;
    assert(beat <= 0 ==> fourths * beat <= 0 && beats * beat <= 0 && bars * beat <= 0)
        by (nonlinear_arith)
        requires
            fourths >= 0,
            beats >= 0,
            bars >= 0,
    ;
}

/// The offsets of a body add up to the first one and those of the body
/// behind the first triple; and the sum has the sign of a beat.
proof fn lemma_offsets_total_split(tokens: Seq<Token>, bpm: Fixed, count: nat)
    requires
        3 * (count + 1) <= tokens.len(),
    ensures
        offsets_total(tokens, bpm, count + 1) == offset_at(tokens, 2).spec_time(bpm).raw
            + offsets_total(tokens.skip(3), bpm, count),
        TimeOffset::spec_beat(bpm).raw >= 0 ==> offsets_total(tokens.skip(3), bpm, count) >= 0,
        TimeOffset::spec_beat(bpm).raw <= 0 ==> offsets_total(tokens.skip(3), bpm, count) <= 0,
    decreases count,
{
    assert(offsets_total(tokens, bpm, count + 1) == offsets_total(tokens, bpm, count)
        + offset_at(tokens, 3 * (count as int) + 2).spec_time(bpm).raw);
    if count > 0 {
        lemma_offsets_total_split(tokens, bpm, (count - 1) as nat);
        assert(tokens.skip(3)[3 * (count - 1) + 2] == tokens[3 * (count as int) + 2]);
        lemma_time_sign(offset_at(tokens, 3 * (count as int) + 2), bpm);
        assert(offsets_total(tokens.skip(3), bpm, count) == offsets_total(
            tokens.skip(3),
            bpm,
            (count - 1) as nat,
        ) + offset_at(tokens.skip(3), 3 * (count - 1) + 2).spec_time(bpm).raw);
    } else {
        assert(offsets_total(tokens, bpm, 0) == 0);
        assert(offsets_total(tokens.skip(3), bpm, 0) == 0);
    }
}

/// Chained timing: a body reads as one projectile for each triple of
/// tokens, and each arrives its own time offset after the one before it, the
/// first one after `start`. So a projectile arrives at `start` plus the sum
/// of the offsets up to its own, saturated.
pub proof fn lemma_chained_timing(tokens: Seq<Token>, bpm: Fixed, start: Fixed, index: int)
    requires
        Sheet::spec_body(tokens, bpm, start) is Ok,
        0 <= index < Sheet::spec_body(tokens, bpm, start)->Ok_0.len(),
    ensures
        ({
            let projectiles = Sheet::spec_body(tokens, bpm, start)->Ok_0;
            let before = if index == 0 {
                start
            } else {
                projectiles[index - 1].arrival_time
            };
            &&& tokens.len() == 3 * projectiles.len()
            &&& tokens[3 * index + 2] is TimeOffset
            &&& projectiles[index].arrival_time == before.spec_add(
                offset_at(tokens, 3 * index + 2).spec_time(bpm),
            )
            &&& projectiles[index].arrival_time.raw == saturate(
                start.raw + offsets_total(tokens, bpm, (index + 1) as nat),
            )
        }),
    decreases index,
{
    let projectiles = Sheet::spec_body(tokens, bpm, start)->Ok_0;
    let first = Projectile::spec_parse(tokens, bpm, start)->Ok_0;
    let rest = Sheet::spec_body(tokens.skip(3), bpm, first.arrival_time)->Ok_0;
    assert(projectiles =~= seq![first] + rest);
    lemma_body_len(tokens, bpm, start);
    lemma_time_sign(offset_at(tokens, 2), bpm);
    if index == 0 {
        assert(offsets_total(tokens, bpm, 1) == offsets_total(tokens, bpm, 0) + offset_at(
            tokens,
            2,
        ).spec_time(bpm).raw);
    } else {
        lemma_chained_timing(tokens.skip(3), bpm, first.arrival_time, index - 1);
        lemma_offsets_total_split(tokens, bpm, index as nat);
        assert(tokens.skip(3)[3 * (index - 1) + 2] == tokens[3 * index + 2]);
        assert(projectiles[index] == rest[index - 1]);
        if index > 1 {
            assert(projectiles[index - 1] == rest[index - 2]);
        }
    }
}

/// A body that reads holds three tokens for each projectile.
proof fn lemma_body_len(tokens: Seq<Token>, bpm: Fixed, start: Fixed)
    requires
        Sheet::spec_body(tokens, bpm, start) is Ok,
    ensures
        tokens.len() == 3 * Sheet::spec_body(tokens, bpm, start)->Ok_0.len(),
    decreases tokens.len(),
{
    if tokens.len() > 0 {
        let first = Projectile::spec_parse(tokens, bpm, start)->Ok_0;
        lemma_body_len(tokens.skip(3), bpm, first.arrival_time);
    }
}

} // verus!
