use vstd::prelude::*;
use crate::token::{
    Symbol, Token, TokenView, seq_view, seqs_view, lemma_seq_view_push, lemma_seqs_view_push,
    lemma_seq_view_len,
};
use crate::text::{
    numeric_char, alphabetic_char, trim_spec, replace_spec, is_numeric, is_alphabetic, sub_chars,
    concat_chars, chars_equal_str, str_chars, chars_to_string, text_of, trim_chars, replace_char,
};
use crate::number::{parse_isize_spec, parse_isize};
use crate::float::{FloatQuery, FloatAnswer, kernel_ok, parse_float, ask_parse};
use crate::log::Logging;

verus! {

/// Why the tokenizer stopped without a token list.
#[derive(Debug)]
pub enum TokenizeError {
    /// A malformed program: the message and the place the language reports
    /// for it (line, then column).
    Reported { path: String, line: usize, column: usize, message: String },
    /// The scan ran past the end of the code, or a number literal does not
    /// parse.
    Fault,
    /// The scan met a character that it never moves past.
    Stuck,
}

/// The model of a tokenizer error.
pub enum TokenizeErrorView {
    Reported { path: Seq<char>, line: int, column: int, message: Seq<char> },
    Fault,
    Stuck,
}

impl View for TokenizeError {
    type V = TokenizeErrorView;

    open spec fn view(&self) -> TokenizeErrorView {
        match self {
            TokenizeError::Reported { path, line, column, message } => TokenizeErrorView::Reported {
                path: path@,
                line: *line as int,
                column: *column as int,
                message: message@,
            },
            TokenizeError::Fault => TokenizeErrorView::Fault,
            TokenizeError::Stuck => TokenizeErrorView::Stuck,
        }
    }
}

/// The result of a scan: it ran past the end, met the end-of-code marker
/// `'\0'` where that is an error, or stopped at a position.
pub enum Scan {
    Fault,
    Nul(int),
    At(int),
}

/// From `j` on, the end of a number literal and the number of `.` in it;
/// `None` when the scan runs past the end.
pub open spec fn scan_number(code: Seq<char>, j: int, dots: int) -> Option<(int, int)>
    decreases code.len() - j,
{
    if j < 0 || j >= code.len() {
        None
    } else if code[j] == '\0' {
        Some((j, dots))
    } else if code[j] == '.' {
        scan_number(code, j + 1, dots + 1)
    } else if numeric_char(code[j]) {
        scan_number(code, j + 1, dots)
    } else {
        Some((j, dots))
    }
}

/// From `j` on, the first `target`; meeting `'\0'` first is `Nul`.
pub open spec fn scan_char(code: Seq<char>, j: int, target: char) -> Scan
    decreases code.len() - j,
{
    if j < 0 || j >= code.len() {
        Scan::Fault
    } else if code[j] == '\0' {
        Scan::Nul(j)
    } else if code[j] == target {
        Scan::At(j)
    } else {
        scan_char(code, j + 1, target)
    }
}

/// From `j` on, the first `target` or `'\0'`.
pub open spec fn scan_stop(code: Seq<char>, j: int, target: char) -> Scan
    decreases code.len() - j,
{
    if j < 0 || j >= code.len() {
        Scan::Fault
    } else if code[j] == '\0' || code[j] == target {
        Scan::At(j)
    } else {
        scan_stop(code, j + 1, target)
    }
}

/// From `j` on, the bracket `close` that matches, with `depth` brackets open.
pub open spec fn scan_bracket(code: Seq<char>, j: int, depth: int, open: char, close: char) -> Scan
    decreases code.len() - j,
{
    if j < 0 || j >= code.len() {
        Scan::Fault
    } else if code[j] == '\0' {
        Scan::Nul(j)
    } else {
        let d1 = if code[j] == open { depth + 1 } else { depth };
        if code[j] == close && d1 - 1 == 0 {
            Scan::At(j)
        } else {
            let d2 = if code[j] == close { d1 - 1 } else { d1 };
            scan_bracket(code, j + 1, d2, open, close)
        }
    }
}

/// From `j` on, the end of a word made of letters and `_`.
pub open spec fn scan_word(code: Seq<char>, j: int) -> Scan
    decreases code.len() - j,
{
    if j < 0 || j >= code.len() {
        Scan::Fault
    } else if code[j] == '\0' {
        Scan::At(j)
    } else if alphabetic_char(code[j]) || code[j] == '_' {
        scan_word(code, j + 1)
    } else {
        Scan::At(j)
    }
}

/// From `j` on, the end of a keyword: it stops at `(`, at a space or at any
/// character that is not a letter; `'\0'` is `Nul` when `nul_fails`.
pub open spec fn scan_keyword(code: Seq<char>, j: int, nul_fails: bool) -> Scan
    decreases code.len() - j,
{
    if j < 0 || j >= code.len() {
        Scan::Fault
    } else if code[j] == '\0' {
        if nul_fails { Scan::Nul(j) } else { Scan::At(j) }
    } else if code[j] == '(' || code[j] == ' ' {
        Scan::At(j)
    } else if alphabetic_char(code[j]) {
        scan_keyword(code, j + 1, nul_fails)
    } else {
        Scan::At(j)
    }
}

/// From `j` on, the end of an identifier: `'\0'` or the first character that
/// is not a letter.
pub open spec fn scan_identifier(code: Seq<char>, j: int) -> Scan
    decreases code.len() - j,
{
    if j < 0 || j >= code.len() {
        Scan::Fault
    } else if code[j] == '\0' {
        Scan::At(j)
    } else if alphabetic_char(code[j]) {
        scan_identifier(code, j + 1)
    } else {
        Scan::At(j)
    }
}

/// From `j` on, the first `;` (the end-of-code marker does not stop it).
pub open spec fn scan_semicolon(code: Seq<char>, j: int) -> Scan
    decreases code.len() - j,
{
    if j < 0 || j >= code.len() {
        Scan::Fault
    } else if code[j] == ';' {
        Scan::At(j)
    } else {
        scan_semicolon(code, j + 1)
    }
}

/// A reported error.
pub open spec fn reported(path: Seq<char>, line: int, column: int, message: Seq<char>) -> TokenizeErrorView {
    TokenizeErrorView::Reported { path, line, column, message }
}

/// The message for a number literal with more than one `.`.
pub open spec fn number_message(num: Seq<char>) -> Seq<char> {
    "INVAL!D NUMBR FORM@T: '"@ + num + "' H@S MULTIPLE DECIM@L P0INTS!! WHAT??"@
}

/// The code of a nested part: the characters, then the end-of-code marker.
pub open spec fn nested(code: Seq<char>, start: int, end: int) -> Seq<char> {
    code.subrange(start, end).push('\0')
}

/// The code of an `if` or `repet` condition: trimmed, with `(` and `)` made
/// into braces, then the end-of-code marker.
pub open spec fn condition_code(code: Seq<char>, start: int, end: int) -> Seq<char> {
    replace_spec(replace_spec(trim_spec(code.subrange(start, end)), '(', '{'), ')', '}').push('\0')
}

/// Splitting a token list at its commas, from position `j` on, with `done`
/// the finished lists, `cur` the list being built and `count` the commas met.
pub open spec fn split_commas(
    ts: Seq<TokenView>,
    j: int,
    done: Seq<Seq<TokenView>>,
    cur: Seq<TokenView>,
    count: int,
    path: Seq<char>,
    line: int,
    column: int,
) -> Result<Seq<Seq<TokenView>>, TokenizeErrorView>
    decreases ts.len() - j,
{
    if j < 0 || j >= ts.len() {
        Ok(done.push(cur))
    } else if ts[j] == TokenView::Symbol(Symbol::Comma) {
        if cur.len() == 0 {
            if column + count <= usize::MAX {
                Err(reported(path, line, column + count, "INVAL!D C0MMA: UNEXPEKTED C0MMA!! H0W DID DIS HAPPEN??"@))
            } else {
                Err(TokenizeErrorView::Fault)
            }
        } else {
            split_commas(ts, j + 1, done.push(cur), Seq::empty(), count + 1, path, line, column)
        }
    } else {
        split_commas(ts, j + 1, done, cur.push(ts[j]), count, path, line, column)
    }
}

/// Whether no comma comes first and no two commas stand side by side: the
/// token lists on which splitting at the commas meets no empty list.
pub open spec fn commas_apart(ts: Seq<TokenView>) -> bool {
    &&& (ts.len() > 0 ==> ts[0] != TokenView::Symbol(Symbol::Comma))
    &&& forall|i: int|
        0 < i < ts.len() && #[trigger] ts[i] == TokenView::Symbol(Symbol::Comma) ==> ts[i - 1] != TokenView::Symbol(
            Symbol::Comma,
        )
}

/// What `remove_comma` gives: the token lists between the commas; a comma
/// that ends an empty list is reported at column `arg_start - start` plus the
/// commas met before it (a column past `usize::MAX` is a fault).
pub open spec fn remove_comma_spec(
    ts: Seq<TokenView>,
    path: Seq<char>,
    line: int,
    arg_start: int,
    start: int,
) -> Result<Seq<Seq<TokenView>>, TokenizeErrorView> {
    split_commas(ts, 0, Seq::empty(), Seq::empty(), 0, path, line, arg_start - start)
}

/// How one round of the main loop ends: the next position, column and line
/// with the tokens so far, or an error.
pub enum LexOutcome {
    Next(int, int, int, Seq<TokenView>),
    Fail(TokenizeErrorView),
}


/// A scan for a character stops inside the code, on that character or on `'\0'`.
pub proof fn lemma_scan_char(code: Seq<char>, j: int, target: char)
    ensures
        scan_char(code, j, target) matches Scan::At(m) ==> j <= m < code.len() && code[m] == target,
        scan_char(code, j, target) matches Scan::Nul(m) ==> j <= m < code.len() && code[m] == '\0',
    decreases code.len() - j,
{
    if 0 <= j < code.len() && code[j] != '\0' && code[j] != target {
        lemma_scan_char(code, j + 1, target);
    }
}

/// A scan for a character or `'\0'` stops inside the code, on one of them.
pub proof fn lemma_scan_stop(code: Seq<char>, j: int, target: char)
    ensures
        scan_stop(code, j, target) matches Scan::At(m) ==> j <= m < code.len() && (code[m] == '\0' || code[m] == target),
        !(scan_stop(code, j, target) is Nul),
    decreases code.len() - j,
{
    if 0 <= j < code.len() && code[j] != '\0' && code[j] != target {
        lemma_scan_stop(code, j + 1, target);
    }
}

/// A bracket scan stops inside the code.
pub proof fn lemma_scan_bracket(code: Seq<char>, j: int, depth: int, open: char, close: char)
    ensures
        scan_bracket(code, j, depth, open, close) matches Scan::At(m) ==> j <= m < code.len(),
        scan_bracket(code, j, depth, open, close) matches Scan::Nul(m) ==> j <= m < code.len(),
    decreases code.len() - j,
{
    if 0 <= j < code.len() && code[j] != '\0' {
        let d1 = if code[j] == open { depth + 1 } else { depth };
        let d2 = if code[j] == close { d1 - 1 } else { d1 };
        lemma_scan_bracket(code, j + 1, d2, open, close);
    }
}

/// A word scan stops inside the code.
pub proof fn lemma_scan_word(code: Seq<char>, j: int)
    ensures
        scan_word(code, j) matches Scan::At(m) ==> j <= m < code.len(),
        !(scan_word(code, j) is Nul),
    decreases code.len() - j,
{
    if 0 <= j < code.len() && code[j] != '\0' {
        lemma_scan_word(code, j + 1);
    }
}

/// A keyword scan stops inside the code.
pub proof fn lemma_scan_keyword(code: Seq<char>, j: int, nul_fails: bool)
    ensures
        scan_keyword(code, j, nul_fails) matches Scan::At(m) ==> j <= m < code.len(),
        scan_keyword(code, j, nul_fails) matches Scan::Nul(m) ==> j <= m < code.len(),
    decreases code.len() - j,
{
    if 0 <= j < code.len() && code[j] != '\0' {
        lemma_scan_keyword(code, j + 1, nul_fails);
    }
}

/// An identifier scan stops inside the code.
pub proof fn lemma_scan_identifier(code: Seq<char>, j: int)
    ensures
        scan_identifier(code, j) matches Scan::At(m) ==> j <= m < code.len(),
        !(scan_identifier(code, j) is Nul),
    decreases code.len() - j,
{
    if 0 <= j < code.len() && code[j] != '\0' {
        lemma_scan_identifier(code, j + 1);
    }
}

/// A scan for `;` stops inside the code, on a `;`.
pub proof fn lemma_scan_semicolon(code: Seq<char>, j: int)
    ensures
        scan_semicolon(code, j) matches Scan::At(m) ==> j <= m < code.len() && code[m] == ';',
        !(scan_semicolon(code, j) is Nul),
    decreases code.len() - j,
{
    if 0 <= j < code.len() && code[j] != ';' {
        lemma_scan_semicolon(code, j + 1);
    }
}

/// A number scan ends inside the code.
pub proof fn lemma_scan_number(code: Seq<char>, j: int, dots: int)
    ensures
        scan_number(code, j, dots) matches Some((e, d)) ==> j <= e < code.len(),
    decreases code.len() - j,
{
    if 0 <= j < code.len() && code[j] != '\0' {
        lemma_scan_number(code, j + 1, if code[j] == '.' { dots + 1 } else { dots });
    }
}

/// Trimming never makes a text longer.
pub proof fn lemma_trim_len(s: Seq<char>)
    ensures
        trim_spec(s).len() <= s.len(),
{
    crate::text::lemma_space_bounds(s);
}

/// The code of a condition is no longer than its source, plus the end marker.
pub proof fn lemma_condition_len(code: Seq<char>, start: int, end: int)
    requires
        0 <= start <= end <= code.len(),
    ensures
        condition_code(code, start, end).len() <= end - start + 1,
{
    lemma_trim_len(code.subrange(start, end));
}

/// The tokens of `code`, as `tokenizer` gives them.
pub open spec fn tokenize_spec<K: Fn(FloatQuery) -> FloatAnswer>(
    k: K,
    path: Seq<char>,
    code: Seq<char>,
) -> Result<Seq<TokenView>, TokenizeErrorView>
    decreases code.len(), 2int, 0int,
{
    lex_loop(k, path, code, 0, 1, 1, Seq::empty())
}

/// The main loop of the tokenizer from position `i`, at column `x` of line
/// `y`, with the tokens `toks` so far.
pub open spec fn lex_loop<K: Fn(FloatQuery) -> FloatAnswer>(
    k: K,
    path: Seq<char>,
    code: Seq<char>,
    i: int,
    x: int,
    y: int,
    toks: Seq<TokenView>,
) -> Result<Seq<TokenView>, TokenizeErrorView>
    decreases code.len(), 1int, code.len() - i,
{
    if i < 0 || i >= code.len() {
        Ok(toks)
    } else if code[i] == '\0' {
        Ok(toks)
    } else {
        match lex_round(k, path, code, i, x + 1, y, toks) {
            LexOutcome::Fail(e) => Err(e),
            LexOutcome::Next(i2, x2, y2, t2) => {
                if i2 <= i {
                    Err(TokenizeErrorView::Stuck)
                } else if i2 > code.len() {
                    Err(TokenizeErrorView::Fault)
                } else {
                    lex_loop(k, path, code, i2, x2, y2, t2)
                }
            },
        }
    }
}

/// One round of the main loop, at the character `code[i]`.
pub open spec fn lex_round<K: Fn(FloatQuery) -> FloatAnswer>(
    k: K,
    path: Seq<char>,
    code: Seq<char>,
    i: int,
    x: int,
    y: int,
    toks: Seq<TokenView>,
) -> LexOutcome
    recommends
        0 <= i < code.len(),
    decreases code.len(), 0int, 10int,
{
    let c = code[i];
    if c == ' ' {
        LexOutcome::Next(i + 1, x, y, toks)
    } else if c == ';' {
        LexOutcome::Next(i + 1, x, y, toks.push(TokenView::Symbol(Symbol::Semicolon)))
    } else if c == '\n' {
        LexOutcome::Next(i + 1, 1, y + 1, toks)
    } else if numeric_char(c) {
        lex_number(k, path, code, i, x, y, toks)
    } else {
        stage_quote(k, path, code, c, i, x, y, toks)
    }
}

/// A number literal at `i`.
pub open spec fn lex_number<K: Fn(FloatQuery) -> FloatAnswer>(
    k: K,
    path: Seq<char>,
    code: Seq<char>,
    i: int,
    x: int,
    y: int,
    toks: Seq<TokenView>,
) -> LexOutcome {
    match scan_number(code, i, 0) {
        None => LexOutcome::Fail(TokenizeErrorView::Fault),
        Some((e, dots)) => {
            let num = code.subrange(i, e);
            if dots == 0 {
                match parse_isize_spec(num) {
                    None => LexOutcome::Fail(TokenizeErrorView::Fault),
                    Some(n) => LexOutcome::Next(e, x, y, toks.push(TokenView::Integer(n))),
                }
            } else if dots == 1 {
                match parse_float(k, num) {
                    None => LexOutcome::Fail(TokenizeErrorView::Fault),
                    Some(f) => LexOutcome::Next(e, x, y, toks.push(TokenView::Float(f))),
                }
            } else {
                LexOutcome::Fail(reported(path, y, x, number_message(num)))
            }
        },
    }
}

/// A string literal, when `c` is `"`.
pub open spec fn stage_quote<K: Fn(FloatQuery) -> FloatAnswer>(
    k: K,
    path: Seq<char>,
    code: Seq<char>,
    c: char,
    i: int,
    x: int,
    y: int,
    toks: Seq<TokenView>,
) -> LexOutcome
    decreases code.len(), 0int, 9int,
{
    if c == '"' {
        match scan_char(code, i + 1, '"') {
            Scan::Fault => LexOutcome::Fail(TokenizeErrorView::Fault),
            Scan::Nul(_) => LexOutcome::Fail(
                reported(path, y, x, "UNT3RM!N@TED STR!NG L!TER@L: M!SS!NG CLOS!NG QU0TE!! OH NOO!!"@),
            ),
            Scan::At(j) => stage_block(
                k, path, code, c, j + 1, x, y,
                toks.push(TokenView::String(code.subrange(i + 1, j))),
            ),
        }
    } else {
        stage_block(k, path, code, c, i, x, y, toks)
    }
}

/// A block, when `c` is `{`.
pub open spec fn stage_block<K: Fn(FloatQuery) -> FloatAnswer>(
    k: K,
    path: Seq<char>,
    code: Seq<char>,
    c: char,
    i: int,
    x: int,
    y: int,
    toks: Seq<TokenView>,
) -> LexOutcome
    decreases code.len(), 0int, 8int,
{
    if c == '{' {
        match scan_bracket(code, i + 1, 1, '{', '}') {
            Scan::Fault => LexOutcome::Fail(TokenizeErrorView::Fault),
            Scan::Nul(_) => LexOutcome::Fail(
                reported(path, y, x, "UNT3RM!N@TED BL0CK: M!SS!NG CLOS!NG BR@C3 '}'!! OOPSIE!!"@),
            ),
            Scan::At(j) => {
                proof {
                    lemma_scan_bracket(code, i + 1, 1, '{', '}');
                }
                if 0 <= i {
                    match tokenize_spec(k, path, nested(code, i + 1, j)) {
                        Err(e) => LexOutcome::Fail(e),
                        Ok(ts) => stage_array(k, path, code, c, j + 1, x, y, toks.push(TokenView::Block(ts))),
                    }
                } else {
                    LexOutcome::Fail(TokenizeErrorView::Fault)
                }
            },
        }
    } else {
        stage_array(k, path, code, c, i, x, y, toks)
    }
}

/// An array, when `c` is `[`.
pub open spec fn stage_array<K: Fn(FloatQuery) -> FloatAnswer>(
    k: K,
    path: Seq<char>,
    code: Seq<char>,
    c: char,
    i: int,
    x: int,
    y: int,
    toks: Seq<TokenView>,
) -> LexOutcome
    decreases code.len(), 0int, 7int,
{
    if c == '[' {
        match scan_bracket(code, i + 1, 1, '[', ']') {
            Scan::Fault => LexOutcome::Fail(TokenizeErrorView::Fault),
            Scan::Nul(_) => LexOutcome::Fail(
                reported(path, y, x, "UNT3RM!N@TED @RR@Y: M!SS!NG CLOS!NG BR@CKET ']'!! NOO!!"@),
            ),
            Scan::At(j) => {
                proof {
                    lemma_scan_bracket(code, i + 1, 1, '[', ']');
                }
                if 0 <= i {
                    match tokenize_spec(k, path, nested(code, i + 1, j)) {
                        Err(e) => LexOutcome::Fail(e),
                        Ok(ts) => match remove_comma_spec(ts, path, y, i + 1, 0) {
                            Err(e) => LexOutcome::Fail(e),
                            Ok(args) => stage_tf(k, path, code, c, j + 1, x, y, toks.push(TokenView::Array(args))),
                        },
                    }
                } else {
                    LexOutcome::Fail(TokenizeErrorView::Fault)
                }
            },
        }
    } else {
        stage_tf(k, path, code, c, i, x, y, toks)
    }
}

/// `tru` and `falz`, when `c` is `t` or `f`.
pub open spec fn stage_tf<K: Fn(FloatQuery) -> FloatAnswer>(
    k: K,
    path: Seq<char>,
    code: Seq<char>,
    c: char,
    i: int,
    x: int,
    y: int,
    toks: Seq<TokenView>,
) -> LexOutcome
    decreases code.len(), 0int, 6int,
{
    if c == 't' || c == 'f' {
        match scan_word(code, i + 1) {
            Scan::At(j) => {
                let w = code.subrange(i, j);
                if w == "tru"@ {
                    LexOutcome::Next(j, x, y, toks.push(TokenView::Boolean(true)))
                } else if w == "falz"@ {
                    LexOutcome::Next(j, x, y, toks.push(TokenView::Boolean(false)))
                } else {
                    stage_e(k, path, code, c, i, x, y, toks)
                }
            },
            _ => LexOutcome::Fail(TokenizeErrorView::Fault),
        }
    } else {
        stage_e(k, path, code, c, i, x, y, toks)
    }
}

/// The message the language gives for a keyword cut short.
pub open spec fn todo_message() -> Seq<char> {
    "TODO"@
}

/// `else`, when `c` is `e`.
pub open spec fn stage_e<K: Fn(FloatQuery) -> FloatAnswer>(
    k: K,
    path: Seq<char>,
    code: Seq<char>,
    c: char,
    i: int,
    x: int,
    y: int,
    toks: Seq<TokenView>,
) -> LexOutcome
    decreases code.len(), 0int, 5int,
{
    if c == 'e' {
        match scan_keyword(code, i + 1, true) {
            Scan::Fault => LexOutcome::Fail(TokenizeErrorView::Fault),
            Scan::Nul(_) => LexOutcome::Fail(reported(path, y, x, todo_message())),
            Scan::At(j) => {
                if code.subrange(i, j) == "else"@ {
                    match scan_char(code, j + 1, '{') {
                        Scan::Fault => LexOutcome::Fail(TokenizeErrorView::Fault),
                        Scan::Nul(_) => LexOutcome::Fail(reported(path, y, x, todo_message())),
                        Scan::At(m) => LexOutcome::Next(m, x, y, toks.push(TokenView::Else)),
                    }
                } else {
                    stage_i(k, path, code, c, i, x, y, toks)
                }
            },
        }
    } else {
        stage_i(k, path, code, c, i, x, y, toks)
    }
}

/// `is` and `if`, when `c` is `i`.
pub open spec fn stage_i<K: Fn(FloatQuery) -> FloatAnswer>(
    k: K,
    path: Seq<char>,
    code: Seq<char>,
    c: char,
    i: int,
    x: int,
    y: int,
    toks: Seq<TokenView>,
) -> LexOutcome
    decreases code.len(), 0int, 4int,
{
    if c == 'i' {
        match scan_keyword(code, i + 1, true) {
            Scan::Fault => LexOutcome::Fail(TokenizeErrorView::Fault),
            Scan::Nul(_) => LexOutcome::Fail(reported(path, y, x, todo_message())),
            Scan::At(j) => {
                let w = code.subrange(i, j);
                if w == "is"@ {
                    LexOutcome::Next(j, x, y, toks.push(TokenView::Symbol(Symbol::Is)))
                } else if w == "if"@ {
                    match scan_stop(code, j + 1, '{') {
                        Scan::At(p) => {
                            proof {
                                lemma_scan_keyword(code, i + 1, true);
                                lemma_scan_stop(code, j + 1, '{');
                                lemma_condition_len(code, j, p);
                            }
                            if 0 <= i {
                                match tokenize_spec(k, path, condition_code(code, j, p)) {
                                    Err(e) => LexOutcome::Fail(e),
                                    Ok(ct) => match scan_stop(code, p, '{') {
                                        Scan::At(q) => stage_r(k, path, code, c, q - 1, x, y, toks.push(TokenView::If(ct))),
                                        _ => LexOutcome::Fail(TokenizeErrorView::Fault),
                                    },
                                }
                            } else {
                                LexOutcome::Fail(TokenizeErrorView::Fault)
                            }
                        },
                        _ => LexOutcome::Fail(TokenizeErrorView::Fault),
                    }
                } else {
                    stage_r(k, path, code, c, j, x, y, toks)
                }
            },
        }
    } else {
        stage_r(k, path, code, c, i, x, y, toks)
    }
}

/// `retun` and `repet`, when `c` is `r`.
pub open spec fn stage_r<K: Fn(FloatQuery) -> FloatAnswer>(
    k: K,
    path: Seq<char>,
    code: Seq<char>,
    c: char,
    i: int,
    x: int,
    y: int,
    toks: Seq<TokenView>,
) -> LexOutcome
    decreases code.len(), 0int, 3int,
{
    if c == 'r' {
        match scan_keyword(code, i + 1, false) {
            Scan::At(j) => {
                let w = code.subrange(i, j);
                if w == "retun"@ {
                    match scan_stop(code, j + 1, '\n') {
                        Scan::At(m) => {
                            proof {
                                lemma_scan_keyword(code, i + 1, false);
                                lemma_scan_stop(code, j + 1, '\n');
                            }
                            if 0 <= i {
                                match tokenize_spec(k, path, nested(code, j + 1, m)) {
                                    Err(e) => LexOutcome::Fail(e),
                                    Ok(rt) => stage_ident(k, path, code, c, m, x, y, toks.push(TokenView::Return(rt))),
                                }
                            } else {
                                LexOutcome::Fail(TokenizeErrorView::Fault)
                            }
                        },
                        _ => LexOutcome::Fail(TokenizeErrorView::Fault),
                    }
                } else if w == "repet"@ {
                    match scan_stop(code, j + 1, '{') {
                        Scan::At(p) => {
                            proof {
                                lemma_scan_keyword(code, i + 1, false);
                                lemma_scan_stop(code, j + 1, '{');
                                lemma_condition_len(code, j, p);
                            }
                            if 0 <= i {
                                match tokenize_spec(k, path, condition_code(code, j, p)) {
                                    Err(e) => LexOutcome::Fail(e),
                                    Ok(ct) => match scan_stop(code, p, '{') {
                                        Scan::At(q) => stage_ident(k, path, code, c, q - 1, x, y, toks.push(TokenView::Repeat(ct))),
                                        _ => LexOutcome::Fail(TokenizeErrorView::Fault),
                                    },
                                }
                            } else {
                                LexOutcome::Fail(TokenizeErrorView::Fault)
                            }
                        },
                        _ => LexOutcome::Fail(TokenizeErrorView::Fault),
                    }
                } else {
                    stage_ident(k, path, code, c, i, x, y, toks)
                }
            },
            _ => LexOutcome::Fail(TokenizeErrorView::Fault),
        }
    } else {
        stage_ident(k, path, code, c, i, x, y, toks)
    }
}

/// An identifier or a function call, when `c` is a letter.
pub open spec fn stage_ident<K: Fn(FloatQuery) -> FloatAnswer>(
    k: K,
    path: Seq<char>,
    code: Seq<char>,
    c: char,
    i: int,
    x: int,
    y: int,
    toks: Seq<TokenView>,
) -> LexOutcome
    decreases code.len(), 0int, 2int,
{
    if alphabetic_char(c) {
        match scan_identifier(code, i + 1) {
            Scan::At(j) => {
                let id = code.subrange(i, j);
                if code[j] == '(' {
                    match scan_char(code, j + 1, ')') {
                        Scan::Fault => LexOutcome::Fail(TokenizeErrorView::Fault),
                        Scan::Nul(_) => LexOutcome::Fail(
                            reported(path, y, j - i, "INVAL!D FUNCT!ON C@LL: M!SS!NG CLOS!NG P@RENTHESES ')'!! OH NO!!"@),
                        ),
                        Scan::At(m) => {
                            proof {
                                lemma_scan_identifier(code, i + 1);
                                lemma_scan_char(code, j + 1, ')');
                            }
                            if 0 <= i {
                                match tokenize_spec(k, path, nested(code, j + 1, m)) {
                                    Err(e) => LexOutcome::Fail(e),
                                    Ok(ts) => match remove_comma_spec(ts, path, y, j, i) {
                                        Err(e) => LexOutcome::Fail(e),
                                        Ok(args) => stage_match(k, path, code, c, m + 1, x, y, toks.push(TokenView::Function(id, args))),
                                    },
                                }
                            } else {
                                LexOutcome::Fail(TokenizeErrorView::Fault)
                            }
                        },
                    }
                } else if id == "\n"@ || id == " "@ {
                    LexOutcome::Next(j, x, y, toks)
                } else {
                    stage_match(k, path, code, c, j, x, y, toks.push(TokenView::Identifier(id)))
                }
            },
            _ => LexOutcome::Fail(TokenizeErrorView::Fault),
        }
    } else {
        stage_match(k, path, code, c, i, x, y, toks)
    }
}

/// The symbol characters; an assignment `=` also takes the code up to the
/// next `;` as a block.
pub open spec fn stage_match<K: Fn(FloatQuery) -> FloatAnswer>(
    k: K,
    path: Seq<char>,
    code: Seq<char>,
    c: char,
    i: int,
    x: int,
    y: int,
    toks: Seq<TokenView>,
) -> LexOutcome
    decreases code.len(), 0int, 1int,
{
    if c == ',' {
        LexOutcome::Next(i + 1, x, y, toks.push(TokenView::Symbol(Symbol::Comma)))
    } else if c == '=' {
        match scan_semicolon(code, i + 1) {
            Scan::At(m) => {
                proof {
                    lemma_scan_semicolon(code, i + 1);
                }
                if 0 <= i {
                    match tokenize_spec(k, path, nested(code, i + 1, m)) {
                        Err(e) => LexOutcome::Fail(e),
                        Ok(ts) => LexOutcome::Next(
                            m, x, y,
                            toks.push(TokenView::Symbol(Symbol::Equal)).push(TokenView::Block(ts)),
                        ),
                    }
                } else {
                    LexOutcome::Fail(TokenizeErrorView::Fault)
                }
            },
            _ => LexOutcome::Fail(TokenizeErrorView::Fault),
        }
    } else if c == '+' {
        LexOutcome::Next(i + 1, x, y, toks.push(TokenView::Symbol(Symbol::Plus)))
    } else if c == '-' {
        LexOutcome::Next(i + 1, x, y, toks.push(TokenView::Symbol(Symbol::Minus)))
    } else if c == '*' {
        LexOutcome::Next(i + 1, x, y, toks.push(TokenView::Symbol(Symbol::Multiply)))
    } else if c == '/' {
        LexOutcome::Next(i + 1, x, y, toks.push(TokenView::Symbol(Symbol::Divide)))
    } else if c == '%' {
        LexOutcome::Next(i + 1, x, y, toks.push(TokenView::Symbol(Symbol::Mod)))
    } else if c == '>' {
        LexOutcome::Next(i + 1, x, y, toks.push(TokenView::Symbol(Symbol::Greater)))
    } else if c == '<' {
        LexOutcome::Next(i + 1, x, y, toks.push(TokenView::Symbol(Symbol::Less)))
    } else {
        LexOutcome::Next(i, x, y, toks)
    }
}

/// How a scan ended (see `Scan`).
pub enum ScanEnd {
    Fault,
    Nul(usize),
    At(usize),
}

impl View for ScanEnd {
    type V = Scan;

    open spec fn view(&self) -> Scan {
        match self {
            ScanEnd::Fault => Scan::Fault,
            ScanEnd::Nul(j) => Scan::Nul(*j as int),
            ScanEnd::At(j) => Scan::At(*j as int),
        }
    }
}

pub(crate) fn find_number_end(code: &Vec<char>, j: usize) -> (r: Option<(usize, usize)>)
    ensures
        match r {
            None => scan_number(code@, j as int, 0) is None,
            Some((e, d)) => scan_number(code@, j as int, 0) == Some((e as int, d as int)),
        },
{
    let mut m = j;
    let mut dots: usize = 0;
    while m < code.len()
        invariant
            j <= m,
            dots <= m - j,
            scan_number(code@, j as int, 0) == scan_number(code@, m as int, dots as int),
        decreases code.len() - m,
    {
        let c = code[m];
        if c == '\0' {
            return Some((m, dots));
        }
        if c == '.' {
            dots = dots + 1;
            m = m + 1;
        } else if is_numeric(c) {
            m = m + 1;
        } else {
            return Some((m, dots));
        }
    }
    None
}

pub(crate) fn find_char(code: &Vec<char>, j: usize, target: char) -> (r: ScanEnd)
    ensures
        r@ == scan_char(code@, j as int, target),
{
    let mut m = j;
    while m < code.len()
        invariant
            j <= m,
            scan_char(code@, j as int, target) == scan_char(code@, m as int, target),
        decreases code.len() - m,
    {
        let c = code[m];
        if c == '\0' {
            return ScanEnd::Nul(m);
        }
        if c == target {
            return ScanEnd::At(m);
        }
        m = m + 1;
    }
    ScanEnd::Fault
}

fn find_stop(code: &Vec<char>, j: usize, target: char) -> (r: ScanEnd)
    ensures
        r@ == scan_stop(code@, j as int, target),
{
    let mut m = j;
    while m < code.len()
        invariant
            j <= m,
            scan_stop(code@, j as int, target) == scan_stop(code@, m as int, target),
        decreases code.len() - m,
    {
        let c = code[m];
        if c == '\0' || c == target {
            return ScanEnd::At(m);
        }
        m = m + 1;
    }
    ScanEnd::Fault
}

fn find_bracket(code: &Vec<char>, j: usize, open: char, close: char) -> (r: ScanEnd)
    requires
        code@.len() < usize::MAX,
    ensures
        r@ == scan_bracket(code@, j as int, 1, open, close),
{
    let mut m = j;
    let mut depth: usize = 1;
    while m < code.len()
        invariant
            j <= m,
            1 <= depth <= m - j + 1,
            code@.len() < usize::MAX,
            scan_bracket(code@, j as int, 1, open, close) == scan_bracket(code@, m as int, depth as int, open, close),
        decreases code.len() - m,
    {
        let c = code[m];
        if c == '\0' {
            return ScanEnd::Nul(m);
        }
        if c == open {
            depth = depth + 1;
        }
        if c == close {
            depth = depth - 1;
            if depth == 0 {
                return ScanEnd::At(m);
            }
        }
        m = m + 1;
    }
    ScanEnd::Fault
}

fn find_word_end(code: &Vec<char>, j: usize) -> (r: ScanEnd)
    ensures
        r@ == scan_word(code@, j as int),
{
    let mut m = j;
    while m < code.len()
        invariant
            j <= m,
            scan_word(code@, j as int) == scan_word(code@, m as int),
        decreases code.len() - m,
    {
        let c = code[m];
        if c == '\0' {
            return ScanEnd::At(m);
        }
        if is_alphabetic(c) || c == '_' {
            m = m + 1;
        } else {
            return ScanEnd::At(m);
        }
    }
    ScanEnd::Fault
}

fn find_keyword_end(code: &Vec<char>, j: usize, nul_fails: bool) -> (r: ScanEnd)
    ensures
        r@ == scan_keyword(code@, j as int, nul_fails),
{
    let mut m = j;
    while m < code.len()
        invariant
            j <= m,
            scan_keyword(code@, j as int, nul_fails) == scan_keyword(code@, m as int, nul_fails),
        decreases code.len() - m,
    {
        let c = code[m];
        if c == '\0' {
            if nul_fails {
                return ScanEnd::Nul(m);
            } else {
                return ScanEnd::At(m);
            }
        }
        if c == '(' || c == ' ' {
            return ScanEnd::At(m);
        }
        if is_alphabetic(c) {
            m = m + 1;
        } else {
            return ScanEnd::At(m);
        }
    }
    ScanEnd::Fault
}

pub(crate) fn find_identifier_end(code: &Vec<char>, j: usize) -> (r: ScanEnd)
    ensures
        r@ == scan_identifier(code@, j as int),
{
    let mut m = j;
    while m < code.len()
        invariant
            j <= m,
            scan_identifier(code@, j as int) == scan_identifier(code@, m as int),
        decreases code.len() - m,
    {
        let c = code[m];
        if c == '\0' {
            return ScanEnd::At(m);
        }
        if is_alphabetic(c) {
            m = m + 1;
        } else {
            return ScanEnd::At(m);
        }
    }
    ScanEnd::Fault
}

fn find_semicolon(code: &Vec<char>, j: usize) -> (r: ScanEnd)
    ensures
        r@ == scan_semicolon(code@, j as int),
{
    let mut m = j;
    while m < code.len()
        invariant
            j <= m,
            scan_semicolon(code@, j as int) == scan_semicolon(code@, m as int),
        decreases code.len() - m,
    {
        if code[m] == ';' {
            return ScanEnd::At(m);
        }
        m = m + 1;
    }
    ScanEnd::Fault
}

/// Splits `args` at its commas into the argument lists of a call or the
/// items of an array; a comma that ends an empty list is an error, reported
/// on line `reading_y` at column `arg_start - start` plus the commas before it.
pub fn remove_comma(
    args: Vec<Token>,
    reading_y: usize,
    arg_start: usize,
    start: usize,
    log: &Logging,
) -> (r: Result<Vec<Vec<Token>>, TokenizeError>)
    requires
        !commas_apart(seq_view(args@)) ==> start <= arg_start,
    ensures
        match r {
            Ok(a) => remove_comma_spec(seq_view(args@), log@, reading_y as int, arg_start as int, start as int)
                == Ok::<Seq<Seq<TokenView>>, TokenizeErrorView>(seqs_view(a@)),
            Err(e) => remove_comma_spec(seq_view(args@), log@, reading_y as int, arg_start as int, start as int)
                == Err::<Seq<Seq<TokenView>>, TokenizeErrorView>(e@),
        },
{
    let mut result_args: Vec<Vec<Token>> = Vec::new();
    let mut remove_comma_count: usize = 0;
    let mut arg: Vec<Token> = Vec::new();
    let mut i: usize = 0;
    let ghost ts = seq_view(args@);
    let ghost column = arg_start as int - start as int;
    assert(seqs_view(result_args@) =~= Seq::<Seq<TokenView>>::empty());
    assert(seq_view(arg@) =~= Seq::<TokenView>::empty());
    while i < args.len()
        invariant
            i <= args@.len(),
            ts == seq_view(args@),
            !commas_apart(ts) ==> start <= arg_start,
            column == arg_start as int - start as int,
            (arg@.len() == 0) == (i == 0 || ts[i as int - 1] == TokenView::Symbol(Symbol::Comma)),
            remove_comma_count <= i,
            remove_comma_spec(ts, log@, reading_y as int, arg_start as int, start as int)
                == split_commas(ts, i as int, seqs_view(result_args@), seq_view(arg@),
                    remove_comma_count as int, log@, reading_y as int, column),
        decreases args.len() - i,
    {
        assert(ts[i as int] == args@[i as int]@);
        if let Token::Symbol(Symbol::Comma) = &args[i] {
            if arg.len() == 0 {
                assert(!commas_apart(ts));
                match (arg_start - start).checked_add(remove_comma_count) {
                    Some(column) => {
                        let message = text_of("INVAL!D C0MMA: UNEXPEKTED C0MMA!! H0W DID DIS HAPPEN??");
                        return Err(TokenizeError::Reported { path: log.path(), line: reading_y, column, message });
                    },
                    None => {
                        return Err(TokenizeError::Fault);
                    },
                }
            }
            proof {
                lemma_seqs_view_push(result_args@, arg);
            }
            result_args.push(arg);
            arg = Vec::new();
            assert(seq_view(arg@) =~= Seq::<TokenView>::empty());
            remove_comma_count = remove_comma_count + 1;
        } else {
            let t = args[i].duplicate();
            proof {
                lemma_seq_view_push(arg@, t);
            }
            arg.push(t);
        }
        i = i + 1;
    }
    proof {
        lemma_seqs_view_push(result_args@, arg);
    }
    result_args.push(arg);
    Ok(result_args)
}

/// How one round of the main loop ended: where to go on, or an error.
pub enum RoundEnd {
    Next(usize, usize, usize),
    Fail(TokenizeError),
}

/// The round ended as the model says, with the tokens `toks`.
pub open spec fn round_is(r: RoundEnd, o: LexOutcome, toks: Seq<TokenView>) -> bool {
    match r {
        RoundEnd::Next(i, x, y) => o == LexOutcome::Next(i as int, x as int, y as int, toks),
        RoundEnd::Fail(e) => o == LexOutcome::Fail(e@),
    }
}

/// The round kept the column and the line.
pub open spec fn keeps_place(r: RoundEnd, x: usize, y: usize) -> bool {
    r matches RoundEnd::Next(_, x2, y2) ==> x2 == x && y2 == y
}

/// The tokenizer's result is the model's.
pub open spec fn lexed_as(
    r: Result<Vec<Token>, TokenizeError>,
    s: Result<Seq<TokenView>, TokenizeErrorView>,
) -> bool {
    match r {
        Ok(ts) => s == Ok::<Seq<TokenView>, TokenizeErrorView>(seq_view(ts@)),
        Err(e) => s == Err::<Seq<TokenView>, TokenizeErrorView>(e@),
    }
}

fn report(log: &Logging, line: usize, column: usize, message: &str) -> (r: TokenizeError)
    ensures
        r@ == reported(log@, line as int, column as int, message@),
{
    TokenizeError::Reported { path: log.path(), line, column, message: text_of(message) }
}

fn nested_code(code: &Vec<char>, start: usize, end: usize) -> (r: Vec<char>)
    requires
        start <= end <= code@.len(),
    ensures
        r@ == nested(code@, start as int, end as int),
{
    let mut r = sub_chars(code, start, end);
    r.push('\0');
    r
}

fn condition_chars(code: &Vec<char>, start: usize, end: usize) -> (r: Vec<char>)
    requires
        start <= end <= code@.len(),
    ensures
        r@ == condition_code(code@, start as int, end as int),
{
    let part = sub_chars(code, start, end);
    let trimmed = trim_chars(&part);
    let opened = replace_char(&trimmed, '(', '{');
    let mut r = replace_char(&opened, ')', '}');
    r.push('\0');
    r
}

fn tokenize_code<K: Fn(FloatQuery) -> FloatAnswer>(
    k: &K,
    log: &Logging,
    code: &Vec<char>,
) -> (r: Result<Vec<Token>, TokenizeError>)
    requires
        kernel_ok(*k),
        code@.len() < usize::MAX,
    ensures
        lexed_as(r, tokenize_spec(*k, log@, code@)),
    decreases code@.len(), 2int, 0int,
{
    let mut tokens: Vec<Token> = Vec::new();
    let mut i: usize = 0;
    let mut reading_x: usize = 1;
    let mut reading_y: usize = 1;
    assert(seq_view(tokens@) =~= Seq::<TokenView>::empty());
    loop
        invariant
            kernel_ok(*k),
            code@.len() < usize::MAX,
            i <= code@.len(),
            reading_x <= i + 1,
            reading_y <= i + 1,
            tokenize_spec(*k, log@, code@)
                == lex_loop(*k, log@, code@, i as int, reading_x as int, reading_y as int, seq_view(tokens@)),
        decreases code@.len() - i,
    {
        if i >= code.len() {
            return Ok(tokens);
        }
        let c = code[i];
        if c == '\0' {
            return Ok(tokens);
        }
        let x = reading_x + 1;
        match run_round(k, log, code, i, x, reading_y, &mut tokens) {
            RoundEnd::Fail(e) => {
                return Err(e);
            },
            RoundEnd::Next(i2, x2, y2) => {
                if i2 <= i {
                    return Err(TokenizeError::Stuck);
                }
                if i2 > code.len() {
                    return Err(TokenizeError::Fault);
                }
                i = i2;
                reading_x = x2;
                reading_y = y2;
            },
        }
    }
}

/// The tokens of `code`, read from the file `path`. Number literals with a
/// `.` are parsed by the float kernel `floats`.
pub fn tokenizer<K: Fn(FloatQuery) -> FloatAnswer>(
    path: String,
    code: Vec<char>,
    floats: &K,
) -> (r: Result<Vec<Token>, TokenizeError>)
    requires
        kernel_ok(*floats),
        code@.len() < usize::MAX,
    ensures
        lexed_as(r, tokenize_spec(*floats, path@, code@)),
{
    let log = Logging::new(path);
    tokenize_code(floats, &log, &code)
}

fn run_round<K: Fn(FloatQuery) -> FloatAnswer>(
    k: &K,
    log: &Logging,
    code: &Vec<char>,
    i: usize,
    x: usize,
    y: usize,
    toks: &mut Vec<Token>,
) -> (r: RoundEnd)
    requires
        kernel_ok(*k),
        code@.len() < usize::MAX,
        i < code@.len(),
        y <= i + 1,
    ensures
        round_is(r, lex_round(*k, log@, code@, i as int, x as int, y as int, seq_view(old(toks)@)), seq_view(final(toks)@)),
        r matches RoundEnd::Next(_, x2, y2) ==> (x2 == x && y2 == y) || (x2 == 1 && y2 == y + 1),
    decreases code@.len(), 0int, 10int,
{
    let c = code[i];
    if c == ' ' {
        RoundEnd::Next(i + 1, x, y)
    } else if c == ';' {
        proof { lemma_seq_view_push(toks@, Token::Symbol(Symbol::Semicolon)); }
        toks.push(Token::Symbol(Symbol::Semicolon));
        RoundEnd::Next(i + 1, x, y)
    } else if c == '\n' {
        RoundEnd::Next(i + 1, 1, y + 1)
    } else if is_numeric(c) {
        run_number(k, log, code, i, x, y, toks)
    } else {
        run_quote(k, log, code, c, i, x, y, toks)
    }
}

fn run_number<K: Fn(FloatQuery) -> FloatAnswer>(
    k: &K,
    log: &Logging,
    code: &Vec<char>,
    i: usize,
    x: usize,
    y: usize,
    toks: &mut Vec<Token>,
) -> (r: RoundEnd)
    requires
        kernel_ok(*k),
        i < code@.len(),
        numeric_char(code@[i as int]),
    ensures
        round_is(r, lex_number(*k, log@, code@, i as int, x as int, y as int, seq_view(old(toks)@)), seq_view(final(toks)@)),
        keeps_place(r, x, y),
{
    match find_number_end(code, i) {
        None => RoundEnd::Fail(TokenizeError::Fault),
        Some((e, dots)) => {
            proof { lemma_scan_number(code@, i as int, 0); }
            let num = sub_chars(code, i, e);
            if dots == 0 {
                match parse_isize(&num) {
                    None => RoundEnd::Fail(TokenizeError::Fault),
                    Some(n) => {
                        proof { lemma_seq_view_push(toks@, Token::Integer(n)); }
                        toks.push(Token::Integer(n));
                        RoundEnd::Next(e, x, y)
                    },
                }
            } else if dots == 1 {
                match ask_parse(k, &num) {
                    None => RoundEnd::Fail(TokenizeError::Fault),
                    Some(f) => {
                        proof { lemma_seq_view_push(toks@, Token::Float(f)); }
                        toks.push(Token::Float(f));
                        RoundEnd::Next(e, x, y)
                    },
                }
            } else {
                let m1 = concat_chars(&str_chars("INVAL!D NUMBR FORM@T: '"), &num);
                let m2 = concat_chars(&m1, &str_chars("' H@S MULTIPLE DECIM@L P0INTS!! WHAT??"));
                RoundEnd::Fail(TokenizeError::Reported {
                    path: log.path(),
                    line: y,
                    column: x,
                    message: chars_to_string(&m2),
                })
            }
        },
    }
}

fn run_quote<K: Fn(FloatQuery) -> FloatAnswer>(
    k: &K,
    log: &Logging,
    code: &Vec<char>,
    c: char,
    i: usize,
    x: usize,
    y: usize,
    toks: &mut Vec<Token>,
) -> (r: RoundEnd)
    requires
        kernel_ok(*k),
        code@.len() < usize::MAX,
        i <= code@.len(),
    ensures
        round_is(r, stage_quote(*k, log@, code@, c, i as int, x as int, y as int, seq_view(old(toks)@)), seq_view(final(toks)@)),
        keeps_place(r, x, y),
    decreases code@.len(), 0int, 9int,
{
    if c == '"' {
        match find_char(code, i + 1, '"') {
            ScanEnd::Fault => RoundEnd::Fail(TokenizeError::Fault),
            ScanEnd::Nul(_) => RoundEnd::Fail(report(log, y, x, "UNT3RM!N@TED STR!NG L!TER@L: M!SS!NG CLOS!NG QU0TE!! OH NOO!!")),
            ScanEnd::At(j) => {
                proof { lemma_scan_char(code@, i + 1, '"'); }
                let text = chars_to_string(&sub_chars(code, i + 1, j));
                let t = Token::String(text);
                proof { lemma_seq_view_push(toks@, t); }
                toks.push(t);
                run_block(k, log, code, c, j + 1, x, y, toks)
            },
        }
    } else {
        run_block(k, log, code, c, i, x, y, toks)
    }
}

fn run_block<K: Fn(FloatQuery) -> FloatAnswer>(
    k: &K,
    log: &Logging,
    code: &Vec<char>,
    c: char,
    i: usize,
    x: usize,
    y: usize,
    toks: &mut Vec<Token>,
) -> (r: RoundEnd)
    requires
        kernel_ok(*k),
        code@.len() < usize::MAX,
        i <= code@.len(),
    ensures
        round_is(r, stage_block(*k, log@, code@, c, i as int, x as int, y as int, seq_view(old(toks)@)), seq_view(final(toks)@)),
        keeps_place(r, x, y),
    decreases code@.len(), 0int, 8int,
{
    if c == '{' {
        match find_bracket(code, i + 1, '{', '}') {
            ScanEnd::Fault => RoundEnd::Fail(TokenizeError::Fault),
            ScanEnd::Nul(_) => RoundEnd::Fail(report(log, y, x, "UNT3RM!N@TED BL0CK: M!SS!NG CLOS!NG BR@C3 '}'!! OOPSIE!!")),
            ScanEnd::At(j) => {
                proof { lemma_scan_bracket(code@, i + 1, 1, '{', '}'); }
                let sub = nested_code(code, i + 1, j);
                match tokenize_code(k, log, &sub) {
                    Err(e) => RoundEnd::Fail(e),
                    Ok(ts) => {
                        let t = Token::Block(ts);
                        proof { lemma_seq_view_push(toks@, t); }
                        toks.push(t);
                        run_array(k, log, code, c, j + 1, x, y, toks)
                    },
                }
            },
        }
    } else {
        run_array(k, log, code, c, i, x, y, toks)
    }
}

fn run_array<K: Fn(FloatQuery) -> FloatAnswer>(
    k: &K,
    log: &Logging,
    code: &Vec<char>,
    c: char,
    i: usize,
    x: usize,
    y: usize,
    toks: &mut Vec<Token>,
) -> (r: RoundEnd)
    requires
        kernel_ok(*k),
        code@.len() < usize::MAX,
        i <= code@.len(),
    ensures
        round_is(r, stage_array(*k, log@, code@, c, i as int, x as int, y as int, seq_view(old(toks)@)), seq_view(final(toks)@)),
        keeps_place(r, x, y),
    decreases code@.len(), 0int, 7int,
{
    if c == '[' {
        match find_bracket(code, i + 1, '[', ']') {
            ScanEnd::Fault => RoundEnd::Fail(TokenizeError::Fault),
            ScanEnd::Nul(_) => RoundEnd::Fail(report(log, y, x, "UNT3RM!N@TED @RR@Y: M!SS!NG CLOS!NG BR@CKET ']'!! NOO!!")),
            ScanEnd::At(j) => {
                proof { lemma_scan_bracket(code@, i + 1, 1, '[', ']'); }
                let sub = nested_code(code, i + 1, j);
                match tokenize_code(k, log, &sub) {
                    Err(e) => RoundEnd::Fail(e),
                    Ok(ts) => {
                        proof { lemma_seq_view_len(ts@); }
                        match remove_comma(ts, y, i + 1, 0, log) {
                            Err(e) => RoundEnd::Fail(e),
                            Ok(args) => {
                                let t = Token::Array(args);
                                proof { lemma_seq_view_push(toks@, t); }
                                toks.push(t);
                                run_tf(k, log, code, c, j + 1, x, y, toks)
                            },
                        }
                    },
                }
            },
        }
    } else {
        run_tf(k, log, code, c, i, x, y, toks)
    }
}

fn run_tf<K: Fn(FloatQuery) -> FloatAnswer>(
    k: &K,
    log: &Logging,
    code: &Vec<char>,
    c: char,
    i: usize,
    x: usize,
    y: usize,
    toks: &mut Vec<Token>,
) -> (r: RoundEnd)
    requires
        kernel_ok(*k),
        code@.len() < usize::MAX,
        i <= code@.len(),
    ensures
        round_is(r, stage_tf(*k, log@, code@, c, i as int, x as int, y as int, seq_view(old(toks)@)), seq_view(final(toks)@)),
        keeps_place(r, x, y),
    decreases code@.len(), 0int, 6int,
{
    if c == 't' || c == 'f' {
        match find_word_end(code, i + 1) {
            ScanEnd::At(j) => {
                proof { lemma_scan_word(code@, i + 1); }
                let w = sub_chars(code, i, j);
                if chars_equal_str(&w, "tru") {
                    proof { lemma_seq_view_push(toks@, Token::Boolean(true)); }
                    toks.push(Token::Boolean(true));
                    RoundEnd::Next(j, x, y)
                } else if chars_equal_str(&w, "falz") {
                    proof { lemma_seq_view_push(toks@, Token::Boolean(false)); }
                    toks.push(Token::Boolean(false));
                    RoundEnd::Next(j, x, y)
                } else {
                    run_e(k, log, code, c, i, x, y, toks)
                }
            },
            _ => RoundEnd::Fail(TokenizeError::Fault),
        }
    } else {
        run_e(k, log, code, c, i, x, y, toks)
    }
}

fn run_e<K: Fn(FloatQuery) -> FloatAnswer>(
    k: &K,
    log: &Logging,
    code: &Vec<char>,
    c: char,
    i: usize,
    x: usize,
    y: usize,
    toks: &mut Vec<Token>,
) -> (r: RoundEnd)
    requires
        kernel_ok(*k),
        code@.len() < usize::MAX,
        i <= code@.len(),
    ensures
        round_is(r, stage_e(*k, log@, code@, c, i as int, x as int, y as int, seq_view(old(toks)@)), seq_view(final(toks)@)),
        keeps_place(r, x, y),
    decreases code@.len(), 0int, 5int,
{
    if c == 'e' {
        match find_keyword_end(code, i + 1, true) {
            ScanEnd::Fault => RoundEnd::Fail(TokenizeError::Fault),
            ScanEnd::Nul(_) => RoundEnd::Fail(report(log, y, x, "TODO")),
            ScanEnd::At(j) => {
                proof { lemma_scan_keyword(code@, i + 1, true); }
                let w = sub_chars(code, i, j);
                if chars_equal_str(&w, "else") {
                    match find_char(code, j + 1, '{') {
                        ScanEnd::Fault => RoundEnd::Fail(TokenizeError::Fault),
                        ScanEnd::Nul(_) => RoundEnd::Fail(report(log, y, x, "TODO")),
                        ScanEnd::At(m) => {
                            proof { lemma_seq_view_push(toks@, Token::Else); }
                            toks.push(Token::Else);
                            RoundEnd::Next(m, x, y)
                        },
                    }
                } else {
                    run_i(k, log, code, c, i, x, y, toks)
                }
            },
        }
    } else {
        run_i(k, log, code, c, i, x, y, toks)
    }
}

fn run_i<K: Fn(FloatQuery) -> FloatAnswer>(
    k: &K,
    log: &Logging,
    code: &Vec<char>,
    c: char,
    i: usize,
    x: usize,
    y: usize,
    toks: &mut Vec<Token>,
) -> (r: RoundEnd)
    requires
        kernel_ok(*k),
        code@.len() < usize::MAX,
        i <= code@.len(),
    ensures
        round_is(r, stage_i(*k, log@, code@, c, i as int, x as int, y as int, seq_view(old(toks)@)), seq_view(final(toks)@)),
        keeps_place(r, x, y),
    decreases code@.len(), 0int, 4int,
{
    if c == 'i' {
        match find_keyword_end(code, i + 1, true) {
            ScanEnd::Fault => RoundEnd::Fail(TokenizeError::Fault),
            ScanEnd::Nul(_) => RoundEnd::Fail(report(log, y, x, "TODO")),
            ScanEnd::At(j) => {
                proof { lemma_scan_keyword(code@, i + 1, true); }
                let w = sub_chars(code, i, j);
                if chars_equal_str(&w, "is") {
                    proof { lemma_seq_view_push(toks@, Token::Symbol(Symbol::Is)); }
                    toks.push(Token::Symbol(Symbol::Is));
                    RoundEnd::Next(j, x, y)
                } else if chars_equal_str(&w, "if") {
                    match find_stop(code, j + 1, '{') {
                        ScanEnd::At(p) => {
                            proof {
                                lemma_scan_stop(code@, j + 1, '{');
                                lemma_condition_len(code@, j as int, p as int);
                            }
                            let cond = condition_chars(code, j, p);
                            match tokenize_code(k, log, &cond) {
                                Err(e) => RoundEnd::Fail(e),
                                Ok(ct) => match find_stop(code, p, '{') {
                                    ScanEnd::At(q) => {
                                        proof { lemma_scan_stop(code@, p as int, '{'); }
                                        let t = Token::If(ct);
                                        proof { lemma_seq_view_push(toks@, t); }
                                        toks.push(t);
                                        run_r(k, log, code, c, q - 1, x, y, toks)
                                    },
                                    _ => RoundEnd::Fail(TokenizeError::Fault),
                                },
                            }
                        },
                        _ => RoundEnd::Fail(TokenizeError::Fault),
                    }
                } else {
                    run_r(k, log, code, c, j, x, y, toks)
                }
            },
        }
    } else {
        run_r(k, log, code, c, i, x, y, toks)
    }
}

fn run_r<K: Fn(FloatQuery) -> FloatAnswer>(
    k: &K,
    log: &Logging,
    code: &Vec<char>,
    c: char,
    i: usize,
    x: usize,
    y: usize,
    toks: &mut Vec<Token>,
) -> (r: RoundEnd)
    requires
        kernel_ok(*k),
        code@.len() < usize::MAX,
        i <= code@.len(),
    ensures
        round_is(r, stage_r(*k, log@, code@, c, i as int, x as int, y as int, seq_view(old(toks)@)), seq_view(final(toks)@)),
        keeps_place(r, x, y),
    decreases code@.len(), 0int, 3int,
{
    if c == 'r' {
        match find_keyword_end(code, i + 1, false) {
            ScanEnd::At(j) => {
                proof { lemma_scan_keyword(code@, i + 1, false); }
                let w = sub_chars(code, i, j);
                if chars_equal_str(&w, "retun") {
                    match find_stop(code, j + 1, '\n') {
                        ScanEnd::At(m) => {
                            proof { lemma_scan_stop(code@, j + 1, '\n'); }
                            let sub = nested_code(code, j + 1, m);
                            match tokenize_code(k, log, &sub) {
                                Err(e) => RoundEnd::Fail(e),
                                Ok(rt) => {
                                    let t = Token::Return(rt);
                                    proof { lemma_seq_view_push(toks@, t); }
                                    toks.push(t);
                                    run_ident(k, log, code, c, m, x, y, toks)
                                },
                            }
                        },
                        _ => RoundEnd::Fail(TokenizeError::Fault),
                    }
                } else if chars_equal_str(&w, "repet") {
                    match find_stop(code, j + 1, '{') {
                        ScanEnd::At(p) => {
                            proof {
                                lemma_scan_stop(code@, j + 1, '{');
                                lemma_condition_len(code@, j as int, p as int);
                            }
                            let cond = condition_chars(code, j, p);
                            match tokenize_code(k, log, &cond) {
                                Err(e) => RoundEnd::Fail(e),
                                Ok(ct) => match find_stop(code, p, '{') {
                                    ScanEnd::At(q) => {
                                        proof { lemma_scan_stop(code@, p as int, '{'); }
                                        let t = Token::Repeat(ct);
                                        proof { lemma_seq_view_push(toks@, t); }
                                        toks.push(t);
                                        run_ident(k, log, code, c, q - 1, x, y, toks)
                                    },
                                    _ => RoundEnd::Fail(TokenizeError::Fault),
                                },
                            }
                        },
                        _ => RoundEnd::Fail(TokenizeError::Fault),
                    }
                } else {
                    run_ident(k, log, code, c, i, x, y, toks)
                }
            },
            _ => RoundEnd::Fail(TokenizeError::Fault),
        }
    } else {
        run_ident(k, log, code, c, i, x, y, toks)
    }
}

#[verifier::rlimit(60)]
fn run_ident<K: Fn(FloatQuery) -> FloatAnswer>(
    k: &K,
    log: &Logging,
    code: &Vec<char>,
    c: char,
    i: usize,
    x: usize,
    y: usize,
    toks: &mut Vec<Token>,
) -> (r: RoundEnd)
    requires
        kernel_ok(*k),
        code@.len() < usize::MAX,
        i <= code@.len(),
    ensures
        round_is(r, stage_ident(*k, log@, code@, c, i as int, x as int, y as int, seq_view(old(toks)@)), seq_view(final(toks)@)),
        keeps_place(r, x, y),
    decreases code@.len(), 0int, 2int,
{
    if is_alphabetic(c) {
        match find_identifier_end(code, i + 1) {
            ScanEnd::At(j) => {
                proof { lemma_scan_identifier(code@, i + 1); }
                let id = sub_chars(code, i, j);
                if code[j] == '(' {
                    match find_char(code, j + 1, ')') {
                        ScanEnd::Fault => RoundEnd::Fail(TokenizeError::Fault),
                        ScanEnd::Nul(_) => RoundEnd::Fail(report(log, y, j - i, "INVAL!D FUNCT!ON C@LL: M!SS!NG CLOS!NG P@RENTHESES ')'!! OH NO!!")),
                        ScanEnd::At(m) => {
                            proof { lemma_scan_char(code@, j + 1, ')'); }
                            let sub = nested_code(code, j + 1, m);
                            match tokenize_code(k, log, &sub) {
                                Err(e) => RoundEnd::Fail(e),
                                Ok(ts) => {
                                    proof { lemma_seq_view_len(ts@); }
                                    match remove_comma(ts, y, j, i, log) {
                                        Err(e) => RoundEnd::Fail(e),
                                        Ok(args) => {
                                            let t = Token::Function(chars_to_string(&id), args);
                                            proof { lemma_seq_view_push(toks@, t); }
                                            toks.push(t);
                                            run_match(k, log, code, c, m + 1, x, y, toks)
                                        },
                                    }
                                },
                            }
                        },
                    }
                } else if chars_equal_str(&id, "\n") || chars_equal_str(&id, " ") {
                    RoundEnd::Next(j, x, y)
                } else {
                    let t = Token::Identifier(chars_to_string(&id));
                    proof { lemma_seq_view_push(toks@, t); }
                    toks.push(t);
                    run_match(k, log, code, c, j, x, y, toks)
                }
            },
            _ => RoundEnd::Fail(TokenizeError::Fault),
        }
    } else {
        run_match(k, log, code, c, i, x, y, toks)
    }
}

fn run_match<K: Fn(FloatQuery) -> FloatAnswer>(
    k: &K,
    log: &Logging,
    code: &Vec<char>,
    c: char,
    i: usize,
    x: usize,
    y: usize,
    toks: &mut Vec<Token>,
) -> (r: RoundEnd)
    requires
        kernel_ok(*k),
        code@.len() < usize::MAX,
        i <= code@.len(),
    ensures
        round_is(r, stage_match(*k, log@, code@, c, i as int, x as int, y as int, seq_view(old(toks)@)), seq_view(final(toks)@)),
        keeps_place(r, x, y),
    decreases code@.len(), 0int, 1int,
{
    if c == ',' {
        push_symbol(toks, Symbol::Comma);
        RoundEnd::Next(i + 1, x, y)
    } else if c == '=' {
        match find_semicolon(code, i + 1) {
            ScanEnd::At(m) => {
                proof { lemma_scan_semicolon(code@, i + 1); }
                let sub = nested_code(code, i + 1, m);
                match tokenize_code(k, log, &sub) {
                    Err(e) => RoundEnd::Fail(e),
                    Ok(ts) => {
                        push_symbol(toks, Symbol::Equal);
                        let t = Token::Block(ts);
                        proof { lemma_seq_view_push(toks@, t); }
                        toks.push(t);
                        RoundEnd::Next(m, x, y)
                    },
                }
            },
            _ => RoundEnd::Fail(TokenizeError::Fault),
        }
    } else if c == '+' {
        push_symbol(toks, Symbol::Plus);
        RoundEnd::Next(i + 1, x, y)
    } else if c == '-' {
        push_symbol(toks, Symbol::Minus);
        RoundEnd::Next(i + 1, x, y)
    } else if c == '*' {
        push_symbol(toks, Symbol::Multiply);
        RoundEnd::Next(i + 1, x, y)
    } else if c == '/' {
        push_symbol(toks, Symbol::Divide);
        RoundEnd::Next(i + 1, x, y)
    } else if c == '%' {
        push_symbol(toks, Symbol::Mod);
        RoundEnd::Next(i + 1, x, y)
    } else if c == '>' {
        push_symbol(toks, Symbol::Greater);
        RoundEnd::Next(i + 1, x, y)
    } else if c == '<' {
        push_symbol(toks, Symbol::Less);
        RoundEnd::Next(i + 1, x, y)
    } else {
        RoundEnd::Next(i, x, y)
    }
}

fn push_symbol(toks: &mut Vec<Token>, s: Symbol)
    ensures
        seq_view(final(toks)@) == seq_view(old(toks)@).push(TokenView::Symbol(s)),
{
    proof { lemma_seq_view_push(toks@, Token::Symbol(s)); }
    toks.push(Token::Symbol(s));
}

} // verus!
