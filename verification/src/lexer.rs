use crate::error::{CompileError, CompileErrorView};
use vstd::prelude::*;

verus! {

/// A token of the source text, with the position of its first character.
#[derive(Debug, PartialEq)]
pub enum Token {
    Open(usize),
    Close(usize),
    Int(i64, usize),
    Str(String, usize),
    Word(String, usize),
}

/// The mathematical value of a [`Token`].
pub enum TokenView {
    Open(nat),
    Close(nat),
    Int(int, nat),
    Str(Seq<char>, nat),
    Word(Seq<char>, nat),
}

impl View for Token {
    type V = TokenView;

    open spec fn view(&self) -> TokenView {
        match self {
            Token::Open(at) => TokenView::Open(*at as nat),
            Token::Close(at) => TokenView::Close(*at as nat),
            Token::Int(v, at) => TokenView::Int(*v as int, *at as nat),
            Token::Str(s, at) => TokenView::Str(s@, *at as nat),
            Token::Word(w, at) => TokenView::Word(w@, *at as nat),
        }
    }
}

/// The views of a vector of tokens, in order.
pub open spec fn tokens_view(ts: Seq<Token>) -> Seq<TokenView> {
    Seq::new(ts.len(), |i: int| ts[i]@)
}

/// Whether `c` is white space.
pub open spec fn is_space(c: char) -> bool {
    c == ' ' || c == '\t' || c == '\n' || c == '\r'
}

/// Whether `c` ends a word: white space, a parenthesis or a quote.
pub open spec fn is_delim(c: char) -> bool {
    is_space(c) || c == '(' || c == ')' || c == '"'
}

/// Whether `c` is a decimal digit.
pub open spec fn is_digit(c: char) -> bool {
    '0' <= c && c <= '9'
}

/// The value of the decimal digit `c`.
pub open spec fn digit_value(c: char) -> nat {
    (c as nat - '0' as nat) as nat
}

/// The position at which the word that holds position `pos` ends: that of
/// the first delimiter from `pos` on, or the end of the text.
pub open spec fn word_end(s: Seq<char>, pos: nat) -> nat
    decreases s.len() - pos,
{
    if pos >= s.len() || is_delim(s[pos as int]) {
        pos
    } else {
        word_end(s, pos + 1)
    }
}

/// The position of the quote that closes a string whose text starts at
/// `pos`: the first quote that no backslash stands before. A backslash
/// takes the character after it along.
pub open spec fn string_end(s: Seq<char>, pos: nat) -> Option<nat>
    decreases s.len() - pos,
{
    if pos >= s.len() {
        None
    } else if s[pos as int] == '"' {
        Some(pos)
    } else if s[pos as int] == '\\' {
        if pos + 1 < s.len() {
            string_end(s, pos + 2)
        } else {
            None
        }
    } else {
        string_end(s, pos + 1)
    }
}

/// Whether the characters of `w` from `from` on are all digits.
pub open spec fn all_digits(w: Seq<char>, from: nat) -> bool {
    forall|i: int| from <= i < w.len() ==> is_digit(w[i])
}

/// Whether the word `w` is a number: digits, after a minus sign or not.
pub open spec fn is_number(w: Seq<char>) -> bool {
    if w.len() > 0 && w[0] == '-' {
        w.len() > 1 && all_digits(w, 1)
    } else {
        w.len() > 0 && all_digits(w, 0)
    }
}

/// The value of the digits `w[from..to]` as a decimal numeral.
pub open spec fn digits_value(w: Seq<char>, from: nat, to: nat) -> nat
    decreases to,
{
    if to <= from || to > w.len() {
        0
    } else {
        digits_value(w, from, (to - 1) as nat) * 10 + digit_value(w[to - 1])
    }
}

/// The value of the number `w`.
pub open spec fn number_value(w: Seq<char>) -> int {
    if w.len() > 0 && w[0] == '-' {
        -(digits_value(w, 1, w.len()) as int)
    } else {
        digits_value(w, 0, w.len()) as int
    }
}

/// The token that the word `w` at position `at` stands for: a number
/// where it is one and fits 64 bits, no token where it is one and does
/// not, and a word otherwise.
pub open spec fn word_token(w: Seq<char>, at: nat) -> Option<TokenView> {
    if is_number(w) {
        if i64::MIN <= number_value(w) <= i64::MAX {
            Some(TokenView::Int(number_value(w), at))
        } else {
            None
        }
    } else {
        Some(TokenView::Word(w, at))
    }
}

/// The tokens of the text `s` from position `pos` on, after the tokens
/// `acc`; or the position at which no token can be read: that of a string
/// without its closing quote, or of a number too large.
pub open spec fn tokens_from(s: Seq<char>, pos: nat, acc: Seq<TokenView>) -> Result<
    Seq<TokenView>,
    nat,
>
    decreases s.len() - pos,
{
    if pos >= s.len() {
        Ok(acc)
    } else {
        let c = s[pos as int];
        if is_space(c) {
            tokens_from(s, pos + 1, acc)
        } else if c == '(' {
            tokens_from(s, pos + 1, acc.push(TokenView::Open(pos)))
        } else if c == ')' {
            tokens_from(s, pos + 1, acc.push(TokenView::Close(pos)))
        } else if c == '"' {
            match string_end(s, pos + 1) {
                Some(end) => if pos + 1 <= end < s.len() {
                    tokens_from(
                        s,
                        end + 1,
                        acc.push(TokenView::Str(s.subrange((pos + 1) as int, end as int), pos)),
                    )
                } else {
                    Err(pos)
                },
                None => Err(pos),
            }
        } else {
            let end = word_end(s, pos);
            if pos < end <= s.len() {
                match word_token(s.subrange(pos as int, end as int), pos) {
                    Some(t) => tokens_from(s, end, acc.push(t)),
                    None => Err(pos),
                }
            } else {
                Err(pos)
            }
        }
    }
}

/// The tokens of the text `s`.
pub open spec fn tokens_of(s: Seq<char>) -> Result<Seq<TokenView>, nat> {
    tokens_from(s, 0, Seq::empty())
}

proof fn lemma_word_end_bounds(s: Seq<char>, pos: nat)
    requires
        pos <= s.len(),
    ensures
        pos <= word_end(s, pos) <= s.len(),
        pos < s.len() && !is_delim(s[pos as int]) ==> pos < word_end(s, pos),
    decreases s.len() - pos,
{
    if pos < s.len() && !is_delim(s[pos as int]) {
        lemma_word_end_bounds(s, pos + 1);
    }
}

/// The characters of `text`, in order.
fn chars_of(text: &str) -> (res: Vec<char>)
    ensures
        res@ == text@,
{
    let n = text.unicode_len();
    let mut out: Vec<char> = Vec::new();
    let mut i: usize = 0;
    while i < n
        invariant
            i <= n,
            n == text@.len(),
            out@ == text@.subrange(0, i as int),
        decreases n - i,
    {
        out.push(text.get_char(i));
        i += 1;
        assert(out@ =~= text@.subrange(0, i as int));
    }
    assert(text@.subrange(0, n as int) =~= text@);
    out
}

/// The text of the characters `s[from..to]`.
fn text_of(s: &Vec<char>, from: usize, to: usize) -> (res: String)
    requires
        from <= to <= s@.len(),
    ensures
        res@ == s@.subrange(from as int, to as int),
{
    let mut out = String::new();
    let mut i = from;
    while i < to
        invariant
            from <= i <= to <= s@.len(),
            out@ == s@.subrange(from as int, i as int),
        decreases to - i,
    {
        out.push(s[i]);
        i += 1;
        assert(out@ =~= s@.subrange(from as int, i as int));
    }
    out
}

fn space(c: char) -> (res: bool)
    ensures
        res == is_space(c),
{
    c == ' ' || c == '\t' || c == '\n' || c == '\r'
}

fn delim(c: char) -> (res: bool)
    ensures
        res == is_delim(c),
{
    space(c) || c == '(' || c == ')' || c == '"'
}

fn find_word_end(s: &Vec<char>, pos: usize) -> (end: usize)
    requires
        pos <= s@.len(),
    ensures
        end == word_end(s@, pos as nat),
        pos <= end <= s@.len(),
{
    proof {
        lemma_word_end_bounds(s@, pos as nat);
    }
    let mut i = pos;
    while i < s.len() && !delim(s[i])
        invariant
            pos <= i <= s@.len(),
            word_end(s@, pos as nat) == word_end(s@, i as nat),
        decreases s@.len() - i,
    {
        i += 1;
    }
    i
}

fn find_string_end(s: &Vec<char>, pos: usize) -> (end: Option<usize>)
    requires
        pos <= s@.len(),
    ensures
        match end {
            Some(e) => string_end(s@, pos as nat) == Some(e as nat) && pos <= e < s@.len(),
            None => string_end(s@, pos as nat) is None,
        },
{
    let mut i = pos;
    while i < s.len()
        invariant
            pos <= i <= s@.len(),
            string_end(s@, pos as nat) == string_end(s@, i as nat),
        decreases s@.len() - i,
    {
        if s[i] == '"' {
            return Some(i);
        }
        if s[i] == '\\' {
            if i + 1 < s.len() {
                i += 2;
            } else {
                assert(string_end(s@, i as nat) is None);
                return None;
            }
        } else {
            i += 1;
        }
    }
    None
}

fn digit(c: char) -> (res: bool)
    ensures
        res == is_digit(c),
{
    '0' <= c && c <= '9'
}

fn value_of_digit(c: char) -> (res: u64)
    requires
        is_digit(c),
    ensures
        res == digit_value(c),
        res <= 9,
{
    (c as u32 - '0' as u32) as u64
}

proof fn lemma_digits_value_grows(w: Seq<char>, from: nat, k: nat, to: nat)
    requires
        from <= k <= to <= w.len(),
    ensures
        digits_value(w, from, k) <= digits_value(w, from, to),
    decreases to,
{
    if k < to {
        lemma_digits_value_grows(w, from, k, (to - 1) as nat);
        assert(digits_value(w, from, (to - 1) as nat) * 10 >= digits_value(
            w,
            from,
            (to - 1) as nat,
        )) by (nonlinear_arith);
    }
}

/// The value of the digits `w[from..]`, where it is at most `limit`.
fn read_digits(w: &Vec<char>, from: usize, limit: u64) -> (res: Option<u64>)
    requires
        from <= w@.len(),
        all_digits(w@, from as nat),
        9 <= limit <= 9223372036854775808,
    ensures
        match res {
            Some(v) => v == digits_value(w@, from as nat, w@.len()) && v <= limit,
            None => digits_value(w@, from as nat, w@.len()) > limit,
        },
{
    let mut acc: u64 = 0;
    let mut i = from;
    while i < w.len()
        invariant
            from <= i <= w@.len(),
            all_digits(w@, from as nat),
            9 <= limit <= 9223372036854775808,
            acc == digits_value(w@, from as nat, i as nat),
            acc <= limit,
        decreases w@.len() - i,
    {
        let d = value_of_digit(w[i]);
        let ghost next = digits_value(w@, from as nat, (i + 1) as nat);
        assert(next == acc * 10 + d);
        if acc > (limit - d) / 10 {
            proof {
                lemma_digits_value_grows(w@, from as nat, (i + 1) as nat, w@.len());
                assert(acc * 10 + d > limit) by (nonlinear_arith)
                    requires
                        acc > (limit - d) / 10,
                        d <= 9,
                        9 <= limit,
                {
                }
            }
            return None;
        }
        assert(acc * 10 + d <= limit) by (nonlinear_arith)
            requires
                acc <= (limit - d) / 10,
                d <= 9,
                9 <= limit,
        {
        }
        acc = acc * 10 + d;
        i += 1;
    }
    Some(acc)
}


fn copy_range(s: &Vec<char>, from: usize, to: usize) -> (res: Vec<char>)
    requires
        from <= to <= s@.len(),
    ensures
        res@ == s@.subrange(from as int, to as int),
{
    let mut out: Vec<char> = Vec::new();
    let mut i = from;
    while i < to
        invariant
            from <= i <= to <= s@.len(),
            out@ == s@.subrange(from as int, i as int),
        decreases to - i,
    {
        out.push(s[i]);
        i += 1;
        assert(out@ =~= s@.subrange(from as int, i as int));
    }
    out
}

fn digits_from(w: &Vec<char>, from: usize) -> (res: bool)
    requires
        from <= w@.len(),
    ensures
        res == all_digits(w@, from as nat),
{
    let mut i = from;
    while i < w.len()
        invariant
            from <= i <= w@.len(),
            forall|j: int| from <= j < i ==> is_digit(w@[j]),
        decreases w@.len() - i,
    {
        if !digit(w[i]) {
            return false;
        }
        i += 1;
    }
    true
}

/// The token that the word `w` at position `at` stands for.
fn classify(w: Vec<char>, at: usize) -> (res: Option<Token>)
    requires
        w@.len() > 0,
    ensures
        match res {
            Some(t) => word_token(w@, at as nat) == Some(t@),
            None => word_token(w@, at as nat) is None,
        },
{
    let n = w.len();
    if w[0] == '-' {
        if n > 1 && digits_from(&w, 1) {
            match read_digits(&w, 1, 9223372036854775808) {
                Some(v) => {
                    if v == 9223372036854775808 {
                        Some(Token::Int(i64::MIN, at))
                    } else {
                        Some(Token::Int(-(v as i64), at))
                    }
                },
                None => None,
            }
        } else {
            let word = text_of(&w, 0, n);
            assert(w@.subrange(0, n as int) =~= w@);
            Some(Token::Word(word, at))
        }
    } else if digits_from(&w, 0) {
        match read_digits(&w, 0, 9223372036854775807) {
            Some(v) => Some(Token::Int(v as i64, at)),
            None => None,
        }
    } else {
        let word = text_of(&w, 0, n);
        assert(w@.subrange(0, n as int) =~= w@);
        Some(Token::Word(word, at))
    }
}

fn push_token(acc: &mut Vec<Token>, t: Token)
    ensures
        tokens_view(final(acc)@) == tokens_view(old(acc)@).push(t@),
{
    acc.push(t);
    assert(tokens_view(acc@) =~= tokens_view(old(acc)@).push(t@));
}

/// What reading the tokens of the text `s` gives: the tokens, or a parse
/// error at the position at which no token can be read.
pub open spec fn tokenized(res: Result<Vec<Token>, CompileError>, s: Seq<char>) -> bool {
    match res {
        Ok(ts) => tokens_of(s) == Ok::<Seq<TokenView>, nat>(tokens_view(ts@)),
        Err(e) => match tokens_of(s) {
            Ok(_) => false,
            Err(at) => e@ == CompileErrorView::Parse(at),
        },
    }
}

/// The tokens of the source text: parentheses, numbers, strings and
/// words, white space between them dropped.
pub fn tokenize(text: &str) -> (res: Result<Vec<Token>, CompileError>)
    ensures
        tokenized(res, text@),
{
    let s = chars_of(text);
    let mut acc: Vec<Token> = Vec::new();
    assert(tokens_view(acc@) =~= Seq::empty());
    let mut pos: usize = 0;
    while pos < s.len()
        invariant
            pos <= s@.len(),
            s@ == text@,
            tokens_from(s@, pos as nat, tokens_view(acc@)) == tokens_of(text@),
        decreases s@.len() - pos,
    {
        let c = s[pos];
        if space(c) {
            pos += 1;
        } else if c == '(' {
            push_token(&mut acc, Token::Open(pos));
            pos += 1;
        } else if c == ')' {
            push_token(&mut acc, Token::Close(pos));
            pos += 1;
        } else if c == '"' {
            match find_string_end(&s, pos + 1) {
                Some(end) => {
                    let inner = text_of(&s, pos + 1, end);
                    push_token(&mut acc, Token::Str(inner, pos));
                    pos = end + 1;
                },
                None => {
                    return Err(CompileError::Parse(pos));
                },
            }
        } else {
            let end = find_word_end(&s, pos);
            proof {
                lemma_word_end_bounds(s@, pos as nat);
            }
            let w = copy_range(&s, pos, end);
            match classify(w, pos) {
                Some(t) => {
                    push_token(&mut acc, t);
                    pos = end;
                },
                None => {
                    return Err(CompileError::Parse(pos));
                },
            }
        }
    }
    Ok(acc)
}

} // verus!
