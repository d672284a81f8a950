use vstd::prelude::*;

use crate::error::LexicalError;
use crate::token::{LexModel, LexResult, Token, TokenKind, TokenModel, Tokens};

verus! {

pub open spec fn is_digit(c: char) -> bool {
    '0' <= c && c <= '9'
}

/// A character that may start an identifier.
pub open spec fn is_alpha(c: char) -> bool {
    ('a' <= c && c <= 'z') || ('A' <= c && c <= 'Z') || c == '_'
}

/// A character that may continue an identifier.
pub open spec fn is_alnum(c: char) -> bool {
    is_alpha(c) || is_digit(c)
}

/// The end of the run of identifier characters that starts at `i`.
pub open spec fn ident_end(s: Seq<char>, i: int) -> int
    decreases s.len() - i,
{
    if 0 <= i < s.len() && is_alnum(s[i]) {
        ident_end(s, i + 1)
    } else {
        i
    }
}

/// The end of the run of digits that starts at `i`.
pub open spec fn digits_end(s: Seq<char>, i: int) -> int
    decreases s.len() - i,
{
    if 0 <= i < s.len() && is_digit(s[i]) {
        digits_end(s, i + 1)
    } else {
        i
    }
}

/// The end of a number starting at `i`: digits, then a fraction only where
/// the dot is followed by a digit.
pub open spec fn number_end(s: Seq<char>, i: int) -> int {
    let d = digits_end(s, i);
    if d + 1 < s.len() && s[d] == '.' && is_digit(s[d + 1]) {
        digits_end(s, d + 1)
    } else {
        d
    }
}

/// The first position at or after `i` that holds `c`, or the end of `s`.
pub open spec fn find_char(s: Seq<char>, i: int, c: char) -> int
    decreases s.len() - i,
{
    if 0 <= i < s.len() && s[i] != c {
        find_char(s, i + 1, c)
    } else {
        i
    }
}

/// The number of newline characters in `s`.
pub open spec fn newlines(s: Seq<char>) -> nat
    decreases s.len(),
{
    if s.len() == 0 {
        0
    } else {
        newlines(s.drop_last()) + if s.last() == '\n' {
            1nat
        } else {
            0nat
        }
    }
}

/// The kind of a reserved word, if `w` is one.
pub open spec fn keyword_kind(w: Seq<char>) -> Option<TokenKind> {
    if w == "and"@ {
        Some(TokenKind::And)
    } else if w == "class"@ {
        Some(TokenKind::Class)
    } else if w == "else"@ {
        Some(TokenKind::Else)
    } else if w == "false"@ {
        Some(TokenKind::False)
    } else if w == "for"@ {
        Some(TokenKind::For)
    } else if w == "fun"@ {
        Some(TokenKind::Fun)
    } else if w == "if"@ {
        Some(TokenKind::If)
    } else if w == "nil"@ {
        Some(TokenKind::Nil)
    } else if w == "or"@ {
        Some(TokenKind::Or)
    } else if w == "print"@ {
        Some(TokenKind::Print)
    } else if w == "return"@ {
        Some(TokenKind::Return)
    } else if w == "super"@ {
        Some(TokenKind::Super)
    } else if w == "this"@ {
        Some(TokenKind::This)
    } else if w == "true"@ {
        Some(TokenKind::True)
    } else if w == "var"@ {
        Some(TokenKind::Var)
    } else if w == "while"@ {
        Some(TokenKind::While)
    } else {
        None
    }
}

/// What scanning one lexeme does: the entry it records, if any, the
/// position after the lexeme, and the line counter after it.
pub struct Step {
    pub emitted: Option<LexModel>,
    pub next: int,
    pub line: nat,
}

/// Record the token `s[i..j]` of kind `kind`.
pub open spec fn emit(s: Seq<char>, i: int, j: int, kind: TokenKind, line: nat) -> Step {
    Step {
        emitted: Some(Ok(TokenModel { kind, lexeme: s.subrange(i, j), line })),
        next: j,
        line,
    }
}

/// An entry that records an error and moves on to `next`.
pub open spec fn fail(e: LexicalError, next: int, line: nat) -> Step {
    Step { emitted: Some(Err(e)), next, line }
}

/// Nothing recorded: the characters up to `next` are skipped.
pub open spec fn skip(next: int, line: nat) -> Step {
    Step { emitted: None, next, line }
}

/// `c` at `i`, greedily joined with a following `=`.
pub open spec fn with_equal(
    s: Seq<char>,
    i: int,
    line: nat,
    joined: TokenKind,
    single: TokenKind,
) -> Step {
    if i + 1 < s.len() && s[i + 1] == '=' {
        emit(s, i, i + 2, joined, line)
    } else {
        emit(s, i, i + 1, single, line)
    }
}

/// A string literal opened at `i`: through the next quote, counting the
/// newlines inside; the lexeme keeps both quotes.
pub open spec fn string_step(s: Seq<char>, i: int, line: nat) -> Step {
    let q = find_char(s, i + 1, '"');
    let end_line = line + newlines(s.subrange(i + 1, q));
    if q < s.len() {
        emit(s, i, q + 1, TokenKind::String, end_line)
    } else {
        fail(LexicalError::UnterminatedString { line: end_line as usize }, q, end_line)
    }
}

/// An identifier or reserved word starting at `i`.
pub open spec fn word_step(s: Seq<char>, i: int, line: nat) -> Step {
    let j = ident_end(s, i + 1);
    let kind = match keyword_kind(s.subrange(i, j)) {
        Some(k) => k,
        None => TokenKind::Identifier,
    };
    emit(s, i, j, kind, line)
}

/// A number starting at `i`: its lexeme is digits with an optional
/// fraction, which always denotes a double, so no error is recorded.
pub open spec fn number_step(s: Seq<char>, i: int, line: nat) -> Step {
    emit(s, i, number_end(s, i), TokenKind::Number, line)
}

/// Scanning the lexeme that starts at `i`, on line `line`.
pub open spec fn lex_step(s: Seq<char>, i: int, line: nat) -> Step {
    let c = s[i];
    if c == '(' {
        emit(s, i, i + 1, TokenKind::LeftParen, line)
    } else if c == ')' {
        emit(s, i, i + 1, TokenKind::RightParen, line)
    } else if c == '{' {
        emit(s, i, i + 1, TokenKind::LeftBrace, line)
    } else if c == '}' {
        emit(s, i, i + 1, TokenKind::RightBrace, line)
    } else if c == ',' {
        emit(s, i, i + 1, TokenKind::Comma, line)
    } else if c == '.' {
        emit(s, i, i + 1, TokenKind::Dot, line)
    } else if c == '-' {
        emit(s, i, i + 1, TokenKind::Minus, line)
    } else if c == '+' {
        emit(s, i, i + 1, TokenKind::Plus, line)
    } else if c == ';' {
        emit(s, i, i + 1, TokenKind::Semicolon, line)
    } else if c == '*' {
        emit(s, i, i + 1, TokenKind::Star, line)
    } else if c == '!' {
        with_equal(s, i, line, TokenKind::BangEqual, TokenKind::Bang)
    } else if c == '=' {
        with_equal(s, i, line, TokenKind::EqualEqual, TokenKind::Equal)
    } else if c == '<' {
        with_equal(s, i, line, TokenKind::LessEqual, TokenKind::Less)
    } else if c == '>' {
        with_equal(s, i, line, TokenKind::GreaterEqual, TokenKind::Greater)
    } else if c == '/' {
        if i + 1 < s.len() && s[i + 1] == '/' {
            skip(find_char(s, i + 2, '\n'), line)
        } else {
            emit(s, i, i + 1, TokenKind::Slash, line)
        }
    } else if c == '\t' || c == ' ' || c == '\r' {
        skip(i + 1, line)
    } else if c == '\n' {
        skip(i + 1, line + 1)
    } else if c == '"' {
        string_step(s, i, line)
    } else if is_alpha(c) {
        word_step(s, i, line)
    } else if is_digit(c) {
        number_step(s, i, line)
    } else {
        fail(LexicalError::UnexpectedCharacter { char: c, line: line as usize }, i + 1, line)
    }
}

pub proof fn lemma_ends_bounded(s: Seq<char>, i: int, c: char)
    requires
        0 <= i <= s.len(),
    ensures
        i <= ident_end(s, i) <= s.len(),
        i <= digits_end(s, i) <= s.len(),
        i <= find_char(s, i, c) <= s.len(),
    decreases s.len() - i,
{
    if i < s.len() {
        lemma_ends_bounded(s, i + 1, c);
    }
}

pub proof fn lemma_step_advances(s: Seq<char>, i: int, line: nat)
    requires
        0 <= i < s.len(),
    ensures
        i < lex_step(s, i, line).next <= s.len(),
{
    lemma_ends_bounded(s, i + 1, '"');
    lemma_ends_bounded(s, i, '"');
    if i + 2 <= s.len() {
        lemma_ends_bounded(s, i + 2, '\n');
    }
    let d = digits_end(s, i);
    if d + 1 < s.len() {
        lemma_ends_bounded(s, d + 1, '"');
    }
}

/// The entries recorded from position `i` on, with the line counter at
/// `line`, ending with the end-of-input token.
pub open spec fn scan_from(s: Seq<char>, i: int, line: nat) -> Seq<LexModel>
    decreases s.len() - i,
{
    if i < 0 || i >= s.len() {
        seq![Ok(TokenModel { kind: TokenKind::Eof, lexeme: Seq::empty(), line })]
    } else {
        let st = lex_step(s, i, line);
        proof {
            lemma_step_advances(s, i, line);
        }
        match st.emitted {
            Some(r) => seq![r] + scan_from(s, st.next, st.line),
            None => scan_from(s, st.next, st.line),
        }
    }
}

/// What scanning `s` records.
pub open spec fn scan(s: Seq<char>) -> Seq<LexModel> {
    scan_from(s, 0, 1)
}


fn is_digit_char(c: char) -> (r: bool)
    ensures
        r == is_digit(c),
{
    '0' <= c && c <= '9'
}

fn is_alpha_char(c: char) -> (r: bool)
    ensures
        r == is_alpha(c),
{
    ('a' <= c && c <= 'z') || ('A' <= c && c <= 'Z') || c == '_'
}

fn is_alnum_char(c: char) -> (r: bool)
    ensures
        r == is_alnum(c),
{
    is_alpha_char(c) || is_digit_char(c)
}

fn scan_ident_end(cs: &Vec<char>, i: usize) -> (j: usize)
    requires
        i <= cs.len(),
    ensures
        j == ident_end(cs@, i as int),
{
    let mut j: usize = i;
    while j < cs.len() && is_alnum_char(cs[j])
        invariant
            i <= j <= cs.len(),
            ident_end(cs@, i as int) == ident_end(cs@, j as int),
        decreases cs.len() - j,
    {
        j = j + 1;
    }
    j
}

fn scan_digits_end(cs: &Vec<char>, i: usize) -> (j: usize)
    requires
        i <= cs.len(),
    ensures
        j == digits_end(cs@, i as int),
{
    let mut j: usize = i;
    while j < cs.len() && is_digit_char(cs[j])
        invariant
            i <= j <= cs.len(),
            digits_end(cs@, i as int) == digits_end(cs@, j as int),
        decreases cs.len() - j,
    {
        j = j + 1;
    }
    j
}

fn scan_number_end(cs: &Vec<char>, i: usize) -> (j: usize)
    requires
        i <= cs.len(),
    ensures
        j == number_end(cs@, i as int),
{
    let d = scan_digits_end(cs, i);
    proof {
        lemma_ends_bounded(cs@, i as int, '"');
    }
    if d < cs.len() && cs[d] == '.' && d + 1 < cs.len() && is_digit_char(cs[d + 1]) {
        scan_digits_end(cs, d + 1)
    } else {
        d
    }
}

fn scan_find_char(cs: &Vec<char>, i: usize, c: char) -> (j: usize)
    requires
        i <= cs.len(),
    ensures
        j == find_char(cs@, i as int, c),
{
    let mut j: usize = i;
    while j < cs.len() && cs[j] != c
        invariant
            i <= j <= cs.len(),
            find_char(cs@, i as int, c) == find_char(cs@, j as int, c),
        decreases cs.len() - j,
    {
        j = j + 1;
    }
    j
}

proof fn lemma_newlines_push(s: Seq<char>, a: int, j: int)
    requires
        0 <= a <= j < s.len(),
    ensures
        newlines(s.subrange(a, j + 1)) == newlines(s.subrange(a, j)) + if s[j] == '\n' {
            1nat
        } else {
            0nat
        },
        newlines(s.subrange(a, j)) <= j - a,
    decreases j - a,
{
    assert(s.subrange(a, j + 1).drop_last() =~= s.subrange(a, j));
    if a < j {
        lemma_newlines_push(s, a, j - 1);
    } else {
        assert(s.subrange(a, j) =~= Seq::<char>::empty());
    }
}

/// The number of newlines in `cs[i..j]`.
fn count_newlines(cs: &Vec<char>, i: usize, j: usize) -> (n: usize)
    requires
        i <= j <= cs.len(),
    ensures
        n == newlines(cs@.subrange(i as int, j as int)),
        n <= j - i,
{
    let mut n: usize = 0;
    let mut k: usize = i;
    assert(cs@.subrange(i as int, i as int) =~= Seq::<char>::empty());
    while k < j
        invariant
            i <= k <= j <= cs.len(),
            n == newlines(cs@.subrange(i as int, k as int)),
            n <= k - i,
        decreases j - k,
    {
        proof {
            lemma_newlines_push(cs@, i as int, k as int);
        }
        if cs[k] == '\n' {
            n = n + 1;
        }
        k = k + 1;
    }
    n
}

/// Whether `cs[start..end]` spells `word`.
fn spells(cs: &Vec<char>, start: usize, end: usize, word: &str) -> (r: bool)
    requires
        start <= end <= cs.len(),
    ensures
        r == (cs@.subrange(start as int, end as int) == word@),
{
    let n = word.unicode_len();
    if end - start != n {
        return false;
    }
    let mut k: usize = 0;
    while k < n
        invariant
            n == word@.len(),
            end - start == n,
            start <= end <= cs.len(),
            k <= n,
            forall|m: int| 0 <= m < k ==> cs@[start + m] == word@[m],
        decreases n - k,
    {
        if cs[start + k] != word.get_char(k) {
            assert(cs@.subrange(start as int, end as int)[k as int] != word@[k as int]);
            return false;
        }
        k = k + 1;
    }
    assert(cs@.subrange(start as int, end as int) =~= word@);
    true
}

/// The reserved word that `cs[start..end]` spells, if any.
fn reserved_word(cs: &Vec<char>, start: usize, end: usize) -> (r: Option<TokenKind>)
    requires
        start <= end <= cs.len(),
    ensures
        r == keyword_kind(cs@.subrange(start as int, end as int)),
{
    if spells(cs, start, end, "and") {
        Some(TokenKind::And)
    } else if spells(cs, start, end, "class") {
        Some(TokenKind::Class)
    } else if spells(cs, start, end, "else") {
        Some(TokenKind::Else)
    } else if spells(cs, start, end, "false") {
        Some(TokenKind::False)
    } else if spells(cs, start, end, "for") {
        Some(TokenKind::For)
    } else if spells(cs, start, end, "fun") {
        Some(TokenKind::Fun)
    } else if spells(cs, start, end, "if") {
        Some(TokenKind::If)
    } else if spells(cs, start, end, "nil") {
        Some(TokenKind::Nil)
    } else if spells(cs, start, end, "or") {
        Some(TokenKind::Or)
    } else if spells(cs, start, end, "print") {
        Some(TokenKind::Print)
    } else if spells(cs, start, end, "return") {
        Some(TokenKind::Return)
    } else if spells(cs, start, end, "super") {
        Some(TokenKind::Super)
    } else if spells(cs, start, end, "this") {
        Some(TokenKind::This)
    } else if spells(cs, start, end, "true") {
        Some(TokenKind::True)
    } else if spells(cs, start, end, "var") {
        Some(TokenKind::Var)
    } else if spells(cs, start, end, "while") {
        Some(TokenKind::While)
    } else {
        None
    }
}

/// The line that a recorded entry reports.
pub open spec fn entry_line(r: LexModel) -> nat {
    match r {
        Ok(t) => t.line,
        Err(LexicalError::UnexpectedCharacter { line, .. }) => line as nat,
        Err(LexicalError::UnterminatedString { line }) => line as nat,
        Err(LexicalError::NaN { line }) => line as nat,
    }
}

pub proof fn lemma_newlines_concat(a: Seq<char>, b: Seq<char>)
    ensures
        newlines(a + b) == newlines(a) + newlines(b),
    decreases b.len(),
{
    if b.len() == 0 {
        assert(a + b =~= a);
    } else {
        assert((a + b).drop_last() =~= a + b.drop_last());
        lemma_newlines_concat(a, b.drop_last());
    }
}

proof fn lemma_newlines_single(c: char)
    ensures
        newlines(seq![c]) == if c == '\n' {
            1nat
        } else {
            0nat
        },
{
    reveal_with_fuel(newlines, 2);
    assert(seq![c].drop_last() =~= Seq::<char>::empty());
}

proof fn lemma_newlines_split(s: Seq<char>, i: int, j: int, k: int)
    requires
        0 <= i <= j <= k <= s.len(),
    ensures
        newlines(s.subrange(i, k)) == newlines(s.subrange(i, j)) + newlines(s.subrange(j, k)),
{
    assert(s.subrange(i, k) =~= s.subrange(i, j) + s.subrange(j, k));
    lemma_newlines_concat(s.subrange(i, j), s.subrange(j, k));
}

proof fn lemma_newlines_none(s: Seq<char>)
    requires
        forall|k: int| 0 <= k < s.len() ==> s[k] != '\n',
    ensures
        newlines(s) == 0,
    decreases s.len(),
{
    if s.len() > 0 {
        lemma_newlines_none(s.drop_last());
    }
}

/// Every step advances the line counter once per newline it consumes, and
/// every entry it records reports the line counter after the lexeme (an
/// error, as a machine word).
pub proof fn lemma_step_lines(s: Seq<char>, i: int, line: nat)
    requires
        0 <= i < s.len(),
    ensures
        ({
            let st = lex_step(s, i, line);
            &&& st.line == line + newlines(s.subrange(i, st.next))
            &&& st.emitted matches Some(Ok(t)) ==> t.line == st.line
            &&& st.emitted matches Some(Err(e)) ==> entry_line(Err(e)) == st.line as usize as nat
        }),
{
    let st = lex_step(s, i, line);
    lemma_step_advances(s, i, line);
    lemma_ends_bounded(s, i + 1, '"');
    let c = s[i];
    lemma_newlines_split(s, i, i + 1, st.next);
    assert(s.subrange(i, i + 1) =~= seq![c]);
    lemma_newlines_single(c);
    if c == '"' {
        let q = find_char(s, i + 1, '"');
        if q < s.len() {
            lemma_find_char_found(s, i + 1, '"');
            lemma_newlines_split(s, i + 1, q, q + 1);
            assert(s.subrange(q, q + 1) =~= seq![s[q]]);
            lemma_newlines_single(s[q]);
        }
    } else if c == '/' && i + 1 < s.len() && s[i + 1] == '/' {
        lemma_ends_bounded(s, i + 2, '\n');
        let e = find_char(s, i + 2, '\n');
        let sub = s.subrange(i + 1, e);
        assert forall|k: int| 0 <= k < sub.len() implies #[trigger] sub[k] != '\n' by {
            if k > 0 {
                lemma_find_char_skips(s, i + 2, '\n', i + 1 + k);
            }
        }
        lemma_newlines_none(sub);
    } else if is_alpha(c) || is_digit(c) || c == '!' || c == '=' || c == '<' || c == '>' {
        let sub = s.subrange(i + 1, st.next);
        assert forall|k: int| 0 <= k < sub.len() implies #[trigger] sub[k] != '\n' by {
            lemma_lexeme_chars(s, i, line, i + 1 + k);
        }
        lemma_newlines_none(sub);
    } else {
        assert(s.subrange(i + 1, st.next) =~= Seq::<char>::empty());
    }
}

proof fn lemma_find_char_found(s: Seq<char>, i: int, c: char)
    requires
        0 <= i <= s.len(),
        find_char(s, i, c) < s.len(),
    ensures
        s[find_char(s, i, c)] == c,
    decreases s.len() - i,
{
    if i < s.len() && s[i] != c {
        lemma_find_char_found(s, i + 1, c);
    }
}

proof fn lemma_find_char_skips(s: Seq<char>, i: int, c: char, k: int)
    requires
        0 <= i <= k < find_char(s, i, c),
    ensures
        s[k] != c,
    decreases k - i,
{
    if i < k {
        lemma_find_char_skips(s, i + 1, c, k);
    }
}

proof fn lemma_ident_chars(s: Seq<char>, i: int, k: int)
    requires
        0 <= i <= k < ident_end(s, i),
    ensures
        is_alnum(s[k]),
    decreases k - i,
{
    if i < k {
        lemma_ident_chars(s, i + 1, k);
    }
}

proof fn lemma_digit_chars(s: Seq<char>, i: int, k: int)
    requires
        0 <= i <= k < digits_end(s, i),
    ensures
        is_digit(s[k]),
    decreases k - i,
{
    if i < k {
        lemma_digit_chars(s, i + 1, k);
    }
}

/// A word, number or operator lexeme holds no newline past its first
/// character.
proof fn lemma_lexeme_chars(s: Seq<char>, i: int, line: nat, k: int)
    requires
        0 <= i < s.len(),
        is_alpha(s[i]) || is_digit(s[i]) || s[i] == '!' || s[i] == '=' || s[i] == '<' || s[i]
            == '>',
        i < k < lex_step(s, i, line).next,
    ensures
        s[k] != '\n',
{
    if is_alpha(s[i]) {
        lemma_ident_chars(s, i + 1, k);
    } else if is_digit(s[i]) {
        let d = digits_end(s, i);
        lemma_ends_bounded(s, i, '"');
        if k < d {
            lemma_digit_chars(s, i, k);
        } else if k > d {
            lemma_digit_chars(s, d + 1, k);
        }
    }
}

/// Scanning from `i` with the counter at `line` ends on line `line` plus
/// the number of newlines left in the input.
pub proof fn lemma_scan_from_eof_line(s: Seq<char>, i: int, line: nat)
    requires
        0 <= i <= s.len(),
    ensures
        scan_from(s, i, line).len() > 0,
        scan_from(s, i, line).last() == Ok::<TokenModel, LexicalError>(
            TokenModel {
                kind: TokenKind::Eof,
                lexeme: Seq::empty(),
                line: line + newlines(s.subrange(i, s.len() as int)),
            },
        ),
    decreases s.len() - i,
{
    if i == s.len() {
        assert(s.subrange(i, i) =~= Seq::<char>::empty());
    } else {
        let st = lex_step(s, i, line);
        lemma_step_advances(s, i, line);
        lemma_step_lines(s, i, line);
        lemma_scan_from_eof_line(s, st.next, st.line);
        lemma_newlines_split(s, i, st.next, s.len() as int);
    }
}

/// The line counter advances exactly once per newline: the end-of-input
/// token reports one more than the number of newlines in the input.
pub proof fn lemma_eof_line(s: Seq<char>)
    ensures
        scan(s).len() > 0,
        scan(s).last() == Ok::<TokenModel, LexicalError>(
            TokenModel { kind: TokenKind::Eof, lexeme: Seq::empty(), line: 1 + newlines(s) },
        ),
{
    assert(s.subrange(0, s.len() as int) =~= s);
    lemma_scan_from_eof_line(s, 0, 1);
}

proof fn lemma_scan_from_lines(s: Seq<char>, i: int)
    requires
        0 <= i <= s.len(),
        forall|k: int| 0 <= k < s.len() ==> s[k] != '\n',
    ensures
        forall|k: int|
            0 <= k < scan_from(s, i, 1).len() ==> entry_line(#[trigger] scan_from(
                s,
                i,
                1,
            )[k]) == 1,
    decreases s.len() - i,
{
    if i < s.len() {
        let st = lex_step(s, i, 1);
        lemma_step_advances(s, i, 1);
        lemma_step_lines(s, i, 1);
        let sub = s.subrange(i, st.next);
        assert forall|k: int| 0 <= k < sub.len() implies #[trigger] sub[k] != '\n' by {}
        lemma_newlines_none(sub);
        lemma_scan_from_lines(s, st.next);
        let whole = scan_from(s, i, 1);
        let rest = scan_from(s, st.next, 1);
        if let Some(r) = st.emitted {
            assert(entry_line(r) == 1);
            assert forall|k: int| 0 <= k < whole.len() implies entry_line(#[trigger] whole[k])
                == 1 by {
                if k > 0 {
                    assert(whole[k] == rest[k - 1]);
                }
            }
        }
    }
}

/// On an input without newlines, every recorded entry, token or error,
/// reports line 1.
pub proof fn lemma_single_line(s: Seq<char>)
    requires
        forall|k: int| 0 <= k < s.len() ==> s[k] != '\n',
    ensures
        forall|k: int| 0 <= k < scan(s).len() ==> entry_line(#[trigger] scan(s)[k]) == 1,
{
    lemma_scan_from_lines(s, 0);
}

/// A string literal reports the line of its closing quote: the line at its
/// opening quote plus the newlines before the closing one, and scanning
/// goes on from that line.
pub proof fn lemma_string_line(s: Seq<char>, i: int, line: nat)
    requires
        0 <= i < s.len(),
        s[i] == '"',
        find_char(s, i + 1, '"') < s.len(),
    ensures
        ({
            let q = find_char(s, i + 1, '"');
            let st = lex_step(s, i, line);
            &&& st.emitted == Some(
                Ok::<TokenModel, LexicalError>(
                    TokenModel {
                        kind: TokenKind::String,
                        lexeme: s.subrange(i, q + 1),
                        line: line + newlines(s.subrange(i, q)),
                    },
                ),
            )
            &&& st.next == q + 1
            &&& st.line == line + newlines(s.subrange(i, q))
        }),
{
    let q = find_char(s, i + 1, '"');
    lemma_ends_bounded(s, i + 1, '"');
    lemma_newlines_split(s, i, i + 1, q);
    assert(s.subrange(i, i + 1) =~= seq!['"']);
    lemma_newlines_single('"');
}

/// Two-character operators are chosen greedily: `!`, `=`, `<` or `>`
/// followed by `=` is one token.
pub proof fn lemma_two_char_greedy(s: Seq<char>, i: int, line: nat)
    requires
        0 <= i,
        i + 1 < s.len(),
        s[i] == '!' || s[i] == '=' || s[i] == '<' || s[i] == '>',
        s[i + 1] == '=',
    ensures
        ({
            let st = lex_step(s, i, line);
            let kind: TokenKind = if s[i] == '!' {
                TokenKind::BangEqual
            } else if s[i] == '=' {
                TokenKind::EqualEqual
            } else if s[i] == '<' {
                TokenKind::LessEqual
            } else {
                TokenKind::GreaterEqual
            };
            &&& st.emitted == Some(
                Ok::<TokenModel, LexicalError>(
                    TokenModel { kind, lexeme: s.subrange(i, i + 2), line },
                ),
            )
            &&& st.next == i + 2
        }),
{
}

/// An unterminated string records one error, on the line where the input
/// ends, and then only the end-of-input token.
pub proof fn lemma_unterminated_string(s: Seq<char>, i: int, line: nat)
    requires
        0 <= i < s.len(),
        s[i] == '"',
        find_char(s, i + 1, '"') == s.len(),
    ensures
        ({
            let end_line = line + newlines(s.subrange(i, s.len() as int));
            scan_from(s, i, line) == seq![
                Err::<TokenModel, LexicalError>(
                    LexicalError::UnterminatedString { line: end_line as usize },
                ),
                Ok::<TokenModel, LexicalError>(
                    TokenModel { kind: TokenKind::Eof, lexeme: Seq::empty(), line: end_line },
                ),
            ]
        }),
{
    lemma_step_lines(s, i, line);
    lemma_step_advances(s, i, line);
    let end_line = line + newlines(s.subrange(i, s.len() as int));
    assert(scan_from(s, s.len() as int, end_line) == seq![
        Ok::<TokenModel, LexicalError>(
            TokenModel { kind: TokenKind::Eof, lexeme: Seq::empty(), line: end_line },
        ),
    ]);
    assert(scan_from(s, i, line) =~= seq![
        Err::<TokenModel, LexicalError>(
            LexicalError::UnterminatedString { line: end_line as usize },
        ),
        Ok::<TokenModel, LexicalError>(
            TokenModel { kind: TokenKind::Eof, lexeme: Seq::empty(), line: end_line },
        ),
    ]);
}

/// Whether an entry is the end-of-input token.
pub open spec fn is_eof(r: LexModel) -> bool {
    r matches Ok(t) && t.kind is Eof
}

proof fn lemma_step_not_eof(s: Seq<char>, i: int, line: nat)
    requires
        0 <= i < s.len(),
    ensures
        lex_step(s, i, line).emitted matches Some(r) ==> !is_eof(r),
{
    let w = s.subrange(i, ident_end(s, i + 1));
    assert(keyword_kind(w) matches Some(k) ==> !(k is Eof));
}

proof fn lemma_scan_from_shape(s: Seq<char>, i: int, line: nat)
    requires
        0 <= i <= s.len(),
    ensures
        ({
            let out = scan_from(s, i, line);
            &&& out.len() > 0
            &&& is_eof(out.last())
            &&& forall|k: int| 0 <= k < out.len() - 1 ==> !is_eof(#[trigger] out[k])
            &&& forall|k: int|
                0 <= k < out.len() ==> (#[trigger] out[k] matches Ok(t) ==> t.line >= line)
            &&& forall|j: int, k: int|
                0 <= j < k < out.len() ==> (#[trigger] out[j] matches Ok(a) ==> (
                #[trigger] out[k] matches Ok(b) ==> a.line <= b.line))
        }),
    decreases s.len() - i,
{
    if i < s.len() {
        let st = lex_step(s, i, line);
        lemma_step_advances(s, i, line);
        lemma_step_lines(s, i, line);
        lemma_step_not_eof(s, i, line);
        lemma_scan_from_shape(s, st.next, st.line);
        let out = scan_from(s, i, line);
        let rest = scan_from(s, st.next, st.line);
        if let Some(r) = st.emitted {
            assert(out =~= seq![r] + rest);
            assert forall|k: int| 0 < k < out.len() implies #[trigger] out[k] == rest[k - 1] by {}
            assert forall|j: int, k: int| 0 <= j < k < out.len() implies (#[trigger] out[j] matches Ok(
                a,
            ) ==> (#[trigger] out[k] matches Ok(b) ==> a.line <= b.line)) by {
                if j > 0 {
                    assert(out[j] == rest[j - 1]);
                }
                assert(out[k] == rest[k - 1]);
            }
        }
    }
}

/// Every scan ends with exactly one end-of-input token, and the lines of
/// its tokens never decrease.
pub proof fn lemma_scan_shape(s: Seq<char>)
    ensures
        ({
            let out = scan(s);
            &&& out.len() > 0
            &&& is_eof(out.last())
            &&& forall|k: int| 0 <= k < out.len() - 1 ==> !is_eof(#[trigger] out[k])
            &&& forall|j: int, k: int|
                0 <= j < k < out.len() ==> (#[trigger] out[j] matches Ok(a) ==> (
                #[trigger] out[k] matches Ok(b) ==> a.line <= b.line))
        }),
{
    lemma_scan_from_shape(s, 0, 1);
}

/// The model of what one scan step hands back.
pub open spec fn recorded(r: Option<LexResult>) -> Option<LexModel> {
    match r {
        Some(x) => Some(crate::token::lex_result_view(x)),
        None => None,
    }
}

fn token(source: &str, kind: TokenKind, i: usize, j: usize, line: usize) -> (r: LexResult)
    requires
        i <= j <= source@.len(),
    ensures
        crate::token::lex_result_view(r) == Ok::<TokenModel, LexicalError>(
            TokenModel { kind, lexeme: source@.subrange(i as int, j as int), line: line as nat },
        ),
{
    let lexeme = source.substring_char(i, j).to_owned();
    Ok(Token { kind, lexeme, line })
}

fn with_equal_token(
    source: &str,
    cs: &Vec<char>,
    i: usize,
    line: usize,
    joined: TokenKind,
    single: TokenKind,
) -> (r: (Option<LexResult>, usize, usize))
    requires
        cs@ == source@,
        i < cs.len(),
    ensures
        ({
            let st = with_equal(cs@, i as int, line as nat, joined, single);
            recorded(r.0) == st.emitted && r.1 == st.next && r.2 == st.line
        }),
{
    if i + 1 < cs.len() && cs[i + 1] == '=' {
        (Some(token(source, joined, i, i + 2, line)), i + 2, line)
    } else {
        (Some(token(source, single, i, i + 1, line)), i + 1, line)
    }
}

fn single_token(source: &str, i: usize, line: usize, kind: TokenKind) -> (r: (
    Option<LexResult>,
    usize,
    usize,
))
    requires
        i < source@.len() < usize::MAX,
    ensures
        ({
            let st = emit(source@, i as int, i + 1, kind, line as nat);
            recorded(r.0) == st.emitted && r.1 == st.next && r.2 == st.line
        }),
{
    (Some(token(source, kind, i, i + 1, line)), i + 1, line)
}

/// Scans the lexeme that starts at `i`.
fn lex_one(source: &str, cs: &Vec<char>, i: usize, line: usize) -> (r: (
    Option<LexResult>,
    usize,
    usize,
))
    requires
        cs@ == source@,
        i < cs.len() < usize::MAX,
        1 <= line <= i + 1,
    ensures
        ({
            let st = lex_step(cs@, i as int, line as nat);
            recorded(r.0) == st.emitted && r.1 == st.next && r.2 == st.line
        }),
        1 <= r.2 <= r.1 + 1,
        i < r.1 <= cs.len(),
{
    proof {
        lemma_step_advances(cs@, i as int, line as nat);
        lemma_ends_bounded(cs@, i as int, '"');
        lemma_ends_bounded(cs@, i + 1, '"');
    }
    let c = cs[i];
    if c == '(' {
        single_token(source, i, line, TokenKind::LeftParen)
    } else if c == ')' {
        single_token(source, i, line, TokenKind::RightParen)
    } else if c == '{' {
        single_token(source, i, line, TokenKind::LeftBrace)
    } else if c == '}' {
        single_token(source, i, line, TokenKind::RightBrace)
    } else if c == ',' {
        single_token(source, i, line, TokenKind::Comma)
    } else if c == '.' {
        single_token(source, i, line, TokenKind::Dot)
    } else if c == '-' {
        single_token(source, i, line, TokenKind::Minus)
    } else if c == '+' {
        single_token(source, i, line, TokenKind::Plus)
    } else if c == ';' {
        single_token(source, i, line, TokenKind::Semicolon)
    } else if c == '*' {
        single_token(source, i, line, TokenKind::Star)
    } else if c == '!' {
        with_equal_token(source, cs, i, line, TokenKind::BangEqual, TokenKind::Bang)
    } else if c == '=' {
        with_equal_token(source, cs, i, line, TokenKind::EqualEqual, TokenKind::Equal)
    } else if c == '<' {
        with_equal_token(source, cs, i, line, TokenKind::LessEqual, TokenKind::Less)
    } else if c == '>' {
        with_equal_token(source, cs, i, line, TokenKind::GreaterEqual, TokenKind::Greater)
    } else if c == '/' {
        if i + 1 < cs.len() && cs[i + 1] == '/' {
            let j = scan_find_char(cs, i + 2, '\n');
            (None, j, line)
        } else {
            single_token(source, i, line, TokenKind::Slash)
        }
    } else if c == '\t' || c == ' ' || c == '\r' {
        (None, i + 1, line)
    } else if c == '\n' {
        (None, i + 1, line + 1)
    } else if c == '"' {
        let q = scan_find_char(cs, i + 1, '"');
        let end_line = line + count_newlines(cs, i + 1, q);
        if q < cs.len() {
            (Some(token(source, TokenKind::String, i, q + 1, end_line)), q + 1, end_line)
        } else {
            (Some(Err(LexicalError::UnterminatedString { line: end_line })), q, end_line)
        }
    } else if is_alpha_char(c) {
        let j = scan_ident_end(cs, i + 1);
        let kind = match reserved_word(cs, i, j) {
            Some(k) => k,
            None => TokenKind::Identifier,
        };
        (Some(token(source, kind, i, j, line)), j, line)
    } else if is_digit_char(c) {
        let j = scan_number_end(cs, i);
        (Some(token(source, TokenKind::Number, i, j, line)), j, line)
    } else {
        (Some(Err(LexicalError::UnexpectedCharacter { char: c, line })), i + 1, line)
    }
}

/// The scanner.
pub struct Lexer;

impl Lexer {
    /// Scans `source` into one entry per lexeme, a token or a lexical
    /// error, followed by the end-of-input token.
    pub fn lex(source: &str) -> (r: Tokens)
        requires
            source@.len() < usize::MAX,
        ensures
            r@ == scan(source@),
    {
        let n = source.unicode_len();
        let mut cs: Vec<char> = Vec::new();
        let mut k: usize = 0;
        while k < n
            invariant
                n == source@.len(),
                k <= n,
                cs@ == source@.subrange(0, k as int),
            decreases n - k,
        {
            cs.push(source.get_char(k));
            k = k + 1;
            assert(cs@ =~= source@.subrange(0, k as int));
        }
        assert(cs@ =~= source@);
        let mut tokens: Vec<LexResult> = Vec::new();
        let mut i: usize = 0;
        let mut line: usize = 1;
        assert(crate::token::lex_models(tokens@) =~= Seq::<LexModel>::empty());
        assert(Seq::<LexModel>::empty() + scan(cs@) =~= scan(cs@));
        while i < n
            invariant
                cs@ == source@,
                n == cs.len(),
                n < usize::MAX,
                i <= n,
                1 <= line <= i + 1,
                crate::token::lex_models(tokens@) + scan_from(cs@, i as int, line as nat)
                    == scan(cs@),
            decreases n - i,
        {
            let ghost before = crate::token::lex_models(tokens@);
            let (rec, next, next_line) = lex_one(source, &cs, i, line);
            match rec {
                Some(x) => {
                    tokens.push(x);
                    assert(crate::token::lex_models(tokens@) =~= before.push(crate::token::lex_result_view(x)));
                    assert(before.push(crate::token::lex_result_view(x)) + scan_from(
                        cs@,
                        next as int,
                        next_line as nat,
                    ) =~= before + (seq![crate::token::lex_result_view(x)] + scan_from(
                        cs@,
                        next as int,
                        next_line as nat,
                    )));
                },
                None => {},
            }
            i = next;
            line = next_line;
        }
        let ghost before = crate::token::lex_models(tokens@);
        tokens.push(Ok(Token { kind: TokenKind::Eof, lexeme: String::new(), line }));
        assert(crate::token::lex_models(tokens@) =~= before + scan_from(
            cs@,
            i as int,
            line as nat,
        ));
        Tokens(tokens)
    }
}

} // verus!
