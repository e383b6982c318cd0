//! The lexer: source text to tokens.
//!
//! Tokens are symbols, integer literals, keywords and identifiers; `(*`-`*)`
//! comments nest; a token records whether it starts a line, its line number
//! and its start position, for error reports. A source that begins with
//! `EXPECT(<expr> => <int>)` is first rewritten into the self-checking
//! program `let pg = <expr> in if pg == <int> then 0 else pg;;`, per the
//! model `preprocess_spec`.
//!
//! The token stream the lexer accepts is pinned by the relation `scan_ok`:
//! it fixes each token's kind, numeric value, lexeme and position against
//! the preprocessed text.

use vstd::prelude::*;
use vstd::string::StringExecFns;
use crate::names::Id;

verus! {

/// The kind of a token.
#[derive(Clone, Copy, Debug, PartialEq, Eq, Structural)]
pub enum TokenType {
    Semisemi,
    ILit,
    Plus,
    Mult,
    Lt,
    Arrow,
    Assign,
    Lbrac,
    Rbrac,
    Comma,
    Dot,
    Eq,
    Id,
    If,
    Then,
    Else,
    Fun,
    Let,
    In,
    Rec,
    Loop,
    Recur,
    True,
    False,
}

/// One token: kind, numeric value for `ILit`, text for `Id`, and position
/// (starts a line, line number, offset of its first character).
#[derive(Debug, PartialEq)]
pub struct Token {
    pub tokentype: TokenType,
    pub num: i32,
    pub id: Option<Id>,
    pub position: (bool, usize, usize),
}

impl Token {
    /// A token from its parts.
    pub fn new(
        tokentype: TokenType,
        num: i32,
        id: Option<Id>,
        position: (bool, usize, usize),
    ) -> (t: Token)
        ensures
            t.tokentype == tokentype,
            t.num == num,
            t.id == id,
            t.position == position,
    {
        Token { tokentype, num, id, position }
    }
}

/// The token stream and the cursor of the parser.
#[derive(Debug, PartialEq)]
pub struct TokenSet {
    pub tokens: Vec<Token>,
    pub pos: usize,
}

impl TokenSet {
    /// Consumes the current token when it has the asked kind.
    pub fn consume_ttype(&mut self, ttype: TokenType) -> (r: bool)
        requires
            old(self).pos < old(self).tokens@.len(),
        ensures
            final(self).tokens == old(self).tokens,
            r == (old(self).tokens@[old(self).pos as int].tokentype == ttype),
            r ==> final(self).pos == old(self).pos + 1,
            !r ==> final(self).pos == old(self).pos,
    {
        let n = self.tokens.len();
        if ttype == self.tokens[self.pos].tokentype {
            self.pos = self.pos + 1;
            true
        } else {
            false
        }
    }

    /// The kind of the current token.
    pub fn curtype(&self) -> (t: TokenType)
        requires
            self.pos < self.tokens@.len(),
        ensures
            t == self.tokens@[self.pos as int].tokentype,
    {
        self.tokens[self.pos].tokentype
    }

    /// The numeric value of the current token.
    pub fn curnum(&self) -> (n: i32)
        requires
            self.pos < self.tokens@.len(),
        ensures
            n == self.tokens@[self.pos as int].num,
    {
        self.tokens[self.pos].num
    }

    /// The text of the current token, when it is an identifier.
    pub fn curid(&self) -> (r: Option<Id>)
        requires
            self.pos < self.tokens@.len(),
        ensures
            r is Some <==> (self.tokens@[self.pos as int].tokentype == TokenType::Id
                && self.tokens@[self.pos as int].id is Some),
            r is Some ==> r->0@ == self.tokens@[self.pos as int].id->0@,
    {
        if self.curtype() == TokenType::Id {
            match &self.tokens[self.pos].id {
                Some(s) => Some(s.clone()),
                None => None,
            }
        } else {
            None
        }
    }

    /// Whether the cursor stands on the final token.
    pub fn eof(&self) -> (r: bool)
        ensures
            r == (self.pos + 1 == self.tokens@.len()),
    {
        let n = self.tokens.len();
        n > 0 && self.pos == n - 1
    }
}

/// The error of this stage, with the offset where it was found.
#[derive(Debug, PartialEq)]
pub enum LexError {
    UnclosedComment(usize),
    NumberTooLarge(usize),
    UnknownChar(usize),
    BadExpectHeader(usize),
}

pub open spec fn is_alpha(c: char) -> bool {
    ('a' <= c && c <= 'z') || ('A' <= c && c <= 'Z')
}

pub open spec fn is_digit(c: char) -> bool {
    '0' <= c && c <= '9'
}

pub open spec fn is_ident_char(c: char) -> bool {
    is_alpha(c) || is_digit(c) || c == '_' || c == '\''
}

fn alpha(c: char) -> (r: bool)
    ensures
        r == is_alpha(c),
{
    ('a' <= c && c <= 'z') || ('A' <= c && c <= 'Z')
}

fn digit(c: char) -> (r: bool)
    ensures
        r == is_digit(c),
{
    '0' <= c && c <= '9'
}

fn ident_char(c: char) -> (r: bool)
    ensures
        r == is_ident_char(c),
{
    alpha(c) || digit(c) || c == '_' || c == '\''
}

/// The keyword a word denotes, or `Id`.
pub open spec fn keyword_spec(sv: Seq<char>) -> TokenType {
    if sv == "if"@ {
        TokenType::If
    } else if sv == "then"@ {
        TokenType::Then
    } else if sv == "else"@ {
        TokenType::Else
    } else if sv == "fun"@ {
        TokenType::Fun
    } else if sv == "let"@ {
        TokenType::Let
    } else if sv == "in"@ {
        TokenType::In
    } else if sv == "rec"@ {
        TokenType::Rec
    } else if sv == "loop"@ {
        TokenType::Loop
    } else if sv == "recur"@ {
        TokenType::Recur
    } else if sv == "true"@ {
        TokenType::True
    } else if sv == "false"@ {
        TokenType::False
    } else {
        TokenType::Id
    }
}

/// The keyword a word denotes, or `Id`.
fn keyword_of(s: &String) -> (t: TokenType)
    ensures
        t == keyword_spec(s@),
{
    if s.eq(&"if".to_owned()) {
        TokenType::If
    } else if s.eq(&"then".to_owned()) {
        TokenType::Then
    } else if s.eq(&"else".to_owned()) {
        TokenType::Else
    } else if s.eq(&"fun".to_owned()) {
        TokenType::Fun
    } else if s.eq(&"let".to_owned()) {
        TokenType::Let
    } else if s.eq(&"in".to_owned()) {
        TokenType::In
    } else if s.eq(&"rec".to_owned()) {
        TokenType::Rec
    } else if s.eq(&"loop".to_owned()) {
        TokenType::Loop
    } else if s.eq(&"recur".to_owned()) {
        TokenType::Recur
    } else if s.eq(&"true".to_owned()) {
        TokenType::True
    } else if s.eq(&"false".to_owned()) {
        TokenType::False
    } else {
        TokenType::Id
    }
}

/// The first position at or after `i` that holds no identifier character.
pub open spec fn ident_end(s: Seq<char>, i: int) -> int
    decreases s.len() - i,
{
    if i < 0 || i >= s.len() || !is_ident_char(s[i]) {
        i
    } else {
        ident_end(s, i + 1)
    }
}

/// Scans an identifier or keyword starting at `pos`: a letter followed by
/// the maximal run of letters, digits, `_` or `'`. The token carries the
/// lexeme; its kind is the keyword the lexeme denotes, or `Id`.
fn identify(s: &Vec<char>, pos: &mut usize, line: usize, head: bool) -> (r: Option<Token>)
    requires
        *old(pos) < s@.len(),
    ensures
        *old(pos) <= *final(pos) <= s@.len(),
        r is Some ==> *final(pos) > *old(pos),
        r is Some ==> r->0.position == (head, line, *old(pos)) && r->0.id is Some,
        r is None ==> *final(pos) == *old(pos),
        ({
            if is_alpha(s@[*old(pos) as int]) {
                let e = ident_end(s@, *old(pos) + 1);
                let w = s@.subrange(*old(pos) as int, e);
                r matches Some(t) && *final(pos) as int == e && t.num == -1 && (t.id matches Some(
                    x,
                ) && x@ == w) && t.tokentype == keyword_spec(w)
            } else {
                r is None
            }
        }),
{
    let n = s.len();
    let start: usize = *pos;
    if !alpha(s[*pos]) {
        return None;
    }
    let mut word = String::new();
    word.push(s[*pos]);
    *pos = *pos + 1;
    while *pos < s.len() && ident_char(s[*pos])
        invariant
            start < *pos <= s@.len(),
            word@ =~= s@.subrange(start as int, *pos as int),
            ident_end(s@, start + 1) == ident_end(s@, *pos as int),
        decreases s@.len() - *pos,
    {
        word.push(s[*pos]);
        proof {
            assert(word@ =~= s@.subrange(start as int, *pos as int + 1));
        }
        *pos = *pos + 1;
    }
    proof {
        assert(ident_end(s@, *pos as int) == *pos as int);
    }
    let ttype = keyword_of(&word);
    Some(Token::new(ttype, -1, Some(word), (head, line, start)))
}

/// The value of the digits `s[i..j)`, most significant first.
pub open spec fn digits_val(s: Seq<char>, i: int, j: int) -> int
    decreases j - i,
{
    if j <= i {
        0
    } else {
        digits_val(s, i, j - 1) * 10 + (s[j - 1] as u32 - 48)
    }
}

/// Over a run of digits the value is nonnegative and grows with the run.
proof fn lemma_digits_val_grows(s: Seq<char>, i: int, j: int, k: int)
    requires
        0 <= i <= j <= k,
        forall|m: int| i <= m < k ==> is_digit(#[trigger] s[m]),
        k <= s.len(),
    ensures
        0 <= digits_val(s, i, j) <= digits_val(s, i, k),
    decreases k - i,
{
    if j < k {
        lemma_digits_val_grows(s, i, j, k - 1);
        assert(is_digit(s[k - 1]));
        assert((s[k - 1] as u32 - 48) >= 0);
    } else {
        if j > i {
            lemma_digits_val_grows(s, i, j - 1, j - 1);
            assert(is_digit(s[j - 1]));
        }
    }
}

/// Scans a decimal literal starting at `pos`: the maximal digit run, whose
/// value the token carries. A literal that does not fit in a 32-bit
/// integer is the error, if and only if.
fn number(s: &Vec<char>, pos: &mut usize, line: usize, head: bool) -> (r: Result<
    Option<Token>,
    LexError,
>)
    requires
        *old(pos) < s@.len(),
    ensures
        *old(pos) <= *final(pos) <= s@.len(),
        (r matches Ok(t) && t is Some) ==> ({
            &&& *final(pos) > *old(pos)
            &&& (r->Ok_0)->0.tokentype == TokenType::ILit
            &&& (r->Ok_0)->0.position == (head, line, *old(pos))
        }),
        (r matches Ok(t) && t is None) ==> *final(pos) == *old(pos),
        ({
            let e = digits_end(s@, *old(pos) as int);
            let v = digits_val(s@, *old(pos) as int, e);
            match r {
                Ok(t) => match t {
                    Some(tok) => e > *old(pos) && v <= i32::MAX && *final(pos) as int == e
                        && tok.num == v && tok.id is None,
                    None => e == *old(pos),
                },
                Err(err) => e > *old(pos) && v > i32::MAX && err == LexError::NumberTooLarge(
                    *old(pos),
                ),
            }
        }),
{
    let n = s.len();
    let start: usize = *pos;
    let mut num: i32 = 0;
    while *pos < s.len() && digit(s[*pos])
        invariant
            start <= *pos <= s@.len(),
            start == *old(pos),
            digits_end(s@, start as int) == digits_end(s@, *pos as int),
            forall|m: int| start <= m < *pos ==> is_digit(#[trigger] s@[m]),
            num == digits_val(s@, start as int, *pos as int),
            0 <= num,
        decreases s@.len() - *pos,
    {
        let c = s[*pos];
        let d: i32 = (c as u32 as i32) - 48;
        proof {
            assert(is_digit(c));
            assert(0 <= d <= 9);
        }
        if num > (i32::MAX - d) / 10 {
            proof {
                assert(digits_val(s@, start as int, *pos as int + 1) == num * 10 + d);
                assert(num * 10 + d > i32::MAX);
                assert(digits_end(s@, *pos as int) == digits_end(s@, *pos as int + 1));
                let e = digits_end(s@, start as int);
                lemma_digits_end_props(s@, *pos as int + 1);
                lemma_digits_val_grows(s@, start as int, *pos as int + 1, e);
            }
            return Err(LexError::NumberTooLarge(start));
        }
        num = num * 10 + d;
        *pos = *pos + 1;
    }
    proof {
        assert(digits_end(s@, *pos as int) == *pos as int);
    }
    if start < *pos {
        Ok(Some(Token::new(TokenType::ILit, num, None, (head, line, start))))
    } else {
        Ok(None)
    }
}

/// The digit run ends within the text and holds digits throughout.
proof fn lemma_digits_end_props(s: Seq<char>, i: int)
    requires
        0 <= i <= s.len(),
    ensures
        i <= digits_end(s, i) <= s.len(),
        forall|m: int| i <= m < digits_end(s, i) ==> is_digit(#[trigger] s[m]),
    decreases s.len() - i,
{
    if !(i >= s.len() || !is_digit(s[i])) {
        lemma_digits_end_props(s, i + 1);
    }
}

fn two_at(s: &Vec<char>, pos: usize, a: char, b: char) -> (r: bool)
    ensures
        r == (pos + 2 <= s@.len() && s@[pos as int] == a && s@[pos as int + 1] == b),
{
    let n = s.len();
    pos < n && pos + 1 < n && s[pos] == a && s[pos + 1] == b
}

/// The operator or punctuation at `pos`: its kind and the position after
/// it. Two-character operators come first, so `==` is one `Eq`, never two
/// `Assign`, and `->` is an `Arrow`, never a stray minus.
pub open spec fn signal_spec(s: Seq<char>, pos: int) -> Option<(TokenType, int)> {
    if pos + 2 <= s.len() && s[pos] == ';' && s[pos + 1] == ';' {
        Some((TokenType::Semisemi, pos + 2))
    } else if pos + 2 <= s.len() && s[pos] == '-' && s[pos + 1] == '>' {
        Some((TokenType::Arrow, pos + 2))
    } else if pos + 2 <= s.len() && s[pos] == '=' && s[pos + 1] == '=' {
        Some((TokenType::Eq, pos + 2))
    } else if 0 <= pos < s.len() && s[pos] == '+' {
        Some((TokenType::Plus, pos + 1))
    } else if 0 <= pos < s.len() && s[pos] == '*' {
        Some((TokenType::Mult, pos + 1))
    } else if 0 <= pos < s.len() && s[pos] == '<' {
        Some((TokenType::Lt, pos + 1))
    } else if 0 <= pos < s.len() && s[pos] == '=' {
        Some((TokenType::Assign, pos + 1))
    } else if 0 <= pos < s.len() && s[pos] == '(' {
        Some((TokenType::Lbrac, pos + 1))
    } else if 0 <= pos < s.len() && s[pos] == ')' {
        Some((TokenType::Rbrac, pos + 1))
    } else if 0 <= pos < s.len() && s[pos] == ',' {
        Some((TokenType::Comma, pos + 1))
    } else if 0 <= pos < s.len() && s[pos] == '.' {
        Some((TokenType::Dot, pos + 1))
    } else {
        None
    }
}

/// Scans an operator or a punctuation sign starting at `pos`, as the model
/// `signal_spec` says.
fn signal(s: &Vec<char>, pos: &mut usize, line: usize, head: bool) -> (r: Option<Token>)
    requires
        *old(pos) < s@.len(),
    ensures
        *old(pos) <= *final(pos) <= s@.len(),
        r is Some ==> *final(pos) > *old(pos) && r->0.tokentype != TokenType::Id,
        r is None ==> *final(pos) == *old(pos),
        ({
            let sp = signal_spec(s@, *old(pos) as int);
            match r {
                Some(t) => sp == Some((t.tokentype, *final(pos) as int)) && t.num == -1
                    && t.id is None && t.position == (head, line, *old(pos)),
                None => sp is None,
            }
        }),
{
    let n = s.len();
    let start: usize = *pos;
    if two_at(s, *pos, ';', ';') {
        *pos = *pos + 2;
        Some(Token::new(TokenType::Semisemi, -1, None, (head, line, start)))
    } else if two_at(s, *pos, '-', '>') {
        *pos = *pos + 2;
        Some(Token::new(TokenType::Arrow, -1, None, (head, line, start)))
    } else if two_at(s, *pos, '=', '=') {
        *pos = *pos + 2;
        Some(Token::new(TokenType::Eq, -1, None, (head, line, start)))
    } else if s[*pos] == '+' {
        *pos = *pos + 1;
        Some(Token::new(TokenType::Plus, -1, None, (head, line, start)))
    } else if s[*pos] == '*' {
        *pos = *pos + 1;
        Some(Token::new(TokenType::Mult, -1, None, (head, line, start)))
    } else if s[*pos] == '<' {
        *pos = *pos + 1;
        Some(Token::new(TokenType::Lt, -1, None, (head, line, start)))
    } else if s[*pos] == '=' {
        *pos = *pos + 1;
        Some(Token::new(TokenType::Assign, -1, None, (head, line, start)))
    } else if s[*pos] == '(' {
        *pos = *pos + 1;
        Some(Token::new(TokenType::Lbrac, -1, None, (head, line, start)))
    } else if s[*pos] == ')' {
        *pos = *pos + 1;
        Some(Token::new(TokenType::Rbrac, -1, None, (head, line, start)))
    } else if s[*pos] == ',' {
        *pos = *pos + 1;
        Some(Token::new(TokenType::Comma, -1, None, (head, line, start)))
    } else if s[*pos] == '.' {
        *pos = *pos + 1;
        Some(Token::new(TokenType::Dot, -1, None, (head, line, start)))
    } else {
        None
    }
}

// ----------------------------------------------------------------------
// The EXPECT directive.

/// Whether the source begins with the directive's keyword.
pub open spec fn starts_expect(s: Seq<char>) -> bool {
    s.len() >= 6 && s.take(6) == "EXPECT"@
}

/// Whether `" => "` stands at position `i`.
pub open spec fn arrow_at(s: Seq<char>, i: int) -> bool {
    i + 4 <= s.len() && s[i] == ' ' && s[i + 1] == '=' && s[i + 2] == '>' && s[i + 3] == ' '
}

/// The first position at or after `i` where `" => "` stands.
pub open spec fn find_arrow(s: Seq<char>, i: int) -> Option<int>
    decreases s.len() - i,
{
    if i < 0 || i + 4 > s.len() {
        None
    } else if arrow_at(s, i) {
        Some(i)
    } else {
        find_arrow(s, i + 1)
    }
}

/// The first position at or after `i` that holds no digit.
pub open spec fn digits_end(s: Seq<char>, i: int) -> int
    decreases s.len() - i,
{
    if i < 0 || i >= s.len() || !is_digit(s[i]) {
        i
    } else {
        digits_end(s, i + 1)
    }
}

/// The self-checking program an EXPECT directive denotes: the expression
/// lies between `EXPECT(` and the `" => "` at `i`, the expected value in
/// the digits ending at `de`.
pub open spec fn expect_rewrite(s: Seq<char>, i: int, de: int) -> Seq<char> {
    "let pg = "@ + s.subrange(7, i) + " in if pg == "@ + s.subrange(i + 4, de)
        + " then 0 else pg;;"@
}

/// The model of preprocessing. A source that does not begin with `EXPECT`
/// passes through unchanged. One that does is rewritten when its header is
/// well formed — a first `" => "` no earlier than position 7, then digits,
/// then `)` — and refused otherwise, with the offset of the fault.
pub open spec fn preprocess_spec(s: Seq<char>) -> Result<Seq<char>, int> {
    if !starts_expect(s) {
        Ok(s)
    } else {
        match find_arrow(s, 0) {
            None => Err(0),
            Some(i) => if i < 7 {
                Err(0)
            } else {
                let de = digits_end(s, i + 4);
                if de < s.len() && s[de] == ')' {
                    Ok(expect_rewrite(s, i, de))
                } else {
                    Err(de)
                }
            },
        }
    }
}

proof fn lemma_find_arrow_range(s: Seq<char>, i: int)
    requires
        find_arrow(s, i) is Some,
    ensures
        i <= find_arrow(s, i)->0 && find_arrow(s, i)->0 + 4 <= s.len(),
        arrow_at(s, find_arrow(s, i)->0),
    decreases s.len() - i,
{
    if !(i < 0 || i + 4 > s.len()) && !arrow_at(s, i) {
        lemma_find_arrow_range(s, i + 1);
    }
}

/// Rewrites a source of the shape `EXPECT(<expr> => <int>)` into the
/// self-checking program `let pg = <expr> in if pg == <int> then 0 else
/// pg;;`, keeping the whole of `<expr>`; any other source is kept as it
/// is; a source that begins with `EXPECT` but has no well-formed header is
/// the error. The result equals the model `preprocess_spec`.
pub fn preprocess(pgstr: &Vec<char>) -> (r: Result<Vec<char>, LexError>)
    ensures
        ({
            let s = preprocess_spec(pgstr@);
            match r {
                Ok(v) => s == Ok::<Seq<char>, int>(v@),
                Err(e) => match e {
                    LexError::BadExpectHeader(p) => s == Err::<Seq<char>, int>(p as int),
                    _ => false,
                },
            }
        }),
{
    let header = vec!['E', 'X', 'P', 'E', 'C', 'T'];
    let mut is_expect = pgstr.len() >= 6;
    let mut h: usize = 0;
    while h < 6 && is_expect
        invariant
            h <= 6,
            header@.len() == 6,
            is_expect ==> pgstr@.len() >= 6,
            is_expect ==> forall|k: int| 0 <= k < h ==> pgstr@[k] == header@[k],
            !is_expect ==> pgstr@.len() < 6 || exists|k: int|
                0 <= k < 6 && pgstr@[k] != header@[k],
        decreases 6 - h,
    {
        if pgstr[h] != header[h] {
            is_expect = false;
        }
        h += 1;
    }
    if !is_expect {
        proof {
            if starts_expect(pgstr@) {
                reveal_strlit("EXPECT");
                assert(forall|k: int| 0 <= k < 6 ==> pgstr@[k] == ("EXPECT"@)[k]);
                assert(forall|k: int| 0 <= k < 6 ==> pgstr@[k] == header@[k]);
                assert(false);
            }
        }
        let mut copy: Vec<char> = Vec::new();
        let mut i: usize = 0;
        while i < pgstr.len()
            invariant
                i <= pgstr@.len(),
                copy@ =~= pgstr@.take(i as int),
            decreases pgstr@.len() - i,
        {
            copy.push(pgstr[i]);
            i += 1;
        }
        proof {
            assert(copy@ =~= pgstr@);
        }
        return Ok(copy);
    }
    proof {
        reveal_strlit("EXPECT");
        assert(pgstr@.take(6) =~= "EXPECT"@);
        assert(starts_expect(pgstr@));
    }
    let n = pgstr.len();
    if n < 7 {
        proof {
            match find_arrow(pgstr@, 0) {
                Some(i) => {
                    lemma_find_arrow_range(pgstr@, 0);
                },
                None => {},
            }
        }
        return Err(LexError::BadExpectHeader(0));
    }
    // find the first " => "
    let mut colon_i: usize = 0;
    let mut found = false;
    while !found && colon_i <= n - 4
        invariant
            n == pgstr@.len(),
            n >= 7,
            colon_i <= n,
            found ==> colon_i + 4 <= n && find_arrow(pgstr@, 0) == Some(colon_i as int),
            !found ==> find_arrow(pgstr@, 0) == find_arrow(pgstr@, colon_i as int),
        decreases n - colon_i + (if found { 0int } else { 1int }),
    {
        if pgstr[colon_i] == ' ' && pgstr[colon_i + 1] == '=' && pgstr[colon_i + 2] == '>'
            && pgstr[colon_i + 3] == ' ' {
            proof {
                assert(arrow_at(pgstr@, colon_i as int));
            }
            found = true;
        } else {
            proof {
                assert(!arrow_at(pgstr@, colon_i as int));
            }
            colon_i += 1;
        }
    }
    if !found || colon_i < 7 {
        proof {
            if !found {
                assert(find_arrow(pgstr@, colon_i as int) is None);
            }
        }
        return Err(LexError::BadExpectHeader(0));
    }
    // the expression between "EXPECT(" and " => "
    let pg_end: usize = colon_i;
    // the answer: digits after " => ", up to ")"
    let num_s: usize = colon_i + 4;
    let mut num_e: usize = num_s;
    while num_e < n && digit(pgstr[num_e])
        invariant
            n == pgstr@.len(),
            num_s <= num_e <= n,
            digits_end(pgstr@, num_s as int) == digits_end(pgstr@, num_e as int),
        decreases n - num_e,
    {
        num_e += 1;
    }
    proof {
        assert(digits_end(pgstr@, num_e as int) == num_e as int);
    }
    if num_e >= n || pgstr[num_e] != ')' {
        return Err(LexError::BadExpectHeader(num_e));
    }
    let ghost sv = pgstr@;
    let mut out: Vec<char> = Vec::new();
    let prefix = vec!['l', 'e', 't', ' ', 'p', 'g', ' ', '=', ' '];
    let mid = vec![' ', 'i', 'n', ' ', 'i', 'f', ' ', 'p', 'g', ' ', '=', '=', ' '];
    let suffix = vec![
        ' ',
        't',
        'h',
        'e',
        'n',
        ' ',
        '0',
        ' ',
        'e',
        'l',
        's',
        'e',
        ' ',
        'p',
        'g',
        ';',
        ';',
    ];
    proof {
        reveal_strlit("let pg = ");
        reveal_strlit(" in if pg == ");
        reveal_strlit(" then 0 else pg;;");
        assert(prefix@ =~= "let pg = "@);
        assert(mid@ =~= " in if pg == "@);
        assert(suffix@ =~= " then 0 else pg;;"@);
    }
    let mut i: usize = 0;
    while i < prefix.len()
        invariant
            i <= prefix@.len(),
            out@ =~= prefix@.take(i as int),
        decreases prefix@.len() - i,
    {
        out.push(prefix[i]);
        i += 1;
    }
    proof {
        assert(out@ =~= prefix@);
    }
    let mut j: usize = 7;
    while j < pg_end
        invariant
            7 <= j <= pg_end,
            pg_end <= pgstr@.len(),
            pgstr@ == sv,
            prefix@.len() == 9,
            out@ =~= prefix@ + sv.subrange(7, j as int),
        decreases pg_end - j,
    {
        out.push(pgstr[j]);
        proof {
            assert(out@ =~= prefix@ + sv.subrange(7, j as int + 1));
        }
        j += 1;
    }
    let mut k: usize = 0;
    while k < mid.len()
        invariant
            k <= mid@.len(),
            out@ =~= prefix@ + sv.subrange(7, pg_end as int) + mid@.take(k as int),
            pgstr@ == sv,
            pg_end <= sv.len(),
        decreases mid@.len() - k,
    {
        out.push(mid[k]);
        k += 1;
    }
    let mut m: usize = num_s;
    while m < num_e
        invariant
            num_s <= m <= num_e,
            num_e <= sv.len(),
            pgstr@ == sv,
            num_s == pg_end + 4,
            pg_end <= sv.len(),
            out@ =~= prefix@ + sv.subrange(7, pg_end as int) + mid@ + sv.subrange(
                num_s as int,
                m as int,
            ),
        decreases num_e - m,
    {
        out.push(pgstr[m]);
        proof {
            assert(out@ =~= prefix@ + sv.subrange(7, pg_end as int) + mid@ + sv.subrange(
                num_s as int,
                m as int + 1,
            ));
        }
        m += 1;
    }
    let mut q: usize = 0;
    while q < suffix.len()
        invariant
            q <= suffix@.len(),
            out@ =~= prefix@ + sv.subrange(7, pg_end as int) + mid@ + sv.subrange(
                num_s as int,
                num_e as int,
            ) + suffix@.take(q as int),
            num_s == pg_end + 4,
            num_e <= sv.len(),
            pg_end <= sv.len(),
        decreases suffix@.len() - q,
    {
        out.push(suffix[q]);
        q += 1;
    }
    proof {
        reveal_strlit("let pg = ");
        reveal_strlit(" in if pg == ");
        reveal_strlit(" then 0 else pg;;");
        assert(suffix@.take(suffix@.len() as int) =~= suffix@);
        assert(out@ =~= expect_rewrite(sv, pg_end as int, num_e as int));
    }
    Ok(out)
}

/// The position just past a comment whose openings-to-close count stands
/// at `count`, scanning from `pos`; `None` when the comment never closes.
/// Openings nest; the scan advances one character at a time, two extra on a
/// closing.
pub open spec fn comment_after(s: Seq<char>, pos: int, count: int) -> Option<int>
    decreases s.len() + 1 - pos,
{
    if !(0 <= pos && pos + 1 < s.len()) {
        None
    } else if s[pos] == '(' && s[pos + 1] == '*' {
        comment_after(s, pos + 1, count + 1)
    } else if s[pos] == '*' && s[pos + 1] == ')' {
        if count == 1 {
            Some(pos + 2)
        } else {
            comment_after(s, pos + 3, count - 1)
        }
    } else {
        comment_after(s, pos + 1, count)
    }
}

/// The relation between a source and its token stream, from `pos` on with
/// the line count and line-head flag as given: comments and whitespace
/// separate tokens; a word is a keyword or an identifier carrying its
/// lexeme; a digit run is a literal carrying its value; anything else is an
/// operator or punctuation sign per `signal_spec`; each token records
/// whether it starts a line, its line, and its offset. The final character
/// alone never starts a token.
pub open spec fn scan_ok(
    s: Seq<char>,
    pos: int,
    line: int,
    head: bool,
    toks: Seq<Token>,
) -> bool
    decreases s.len() - pos,
{
    if !(0 <= pos && pos + 1 < s.len()) {
        toks.len() == 0
    } else if s[pos] == '(' && s[pos + 1] == '*' {
        match comment_after(s, pos + 2, 1) {
            Some(p2) => pos < p2 <= s.len() && scan_ok(s, p2, line, head, toks),
            None => false,
        }
    } else if is_alpha(s[pos]) {
        let e = ident_end(s, pos + 1);
        let w = s.subrange(pos, e);
        &&& toks.len() > 0
        &&& toks[0].tokentype == keyword_spec(w)
        &&& toks[0].num == -1
        &&& toks[0].id matches Some(x) && x@ == w
        &&& toks[0].position.0 == head
        &&& toks[0].position.1 as int == line
        &&& toks[0].position.2 as int == pos
        &&& pos < e <= s.len()
        &&& scan_ok(s, e, line, false, toks.skip(1))
    } else if s[pos] == '\n' {
        scan_ok(s, pos + 1, line + 1, true, toks)
    } else if s[pos] == ' ' {
        scan_ok(s, pos + 1, line, head, toks)
    } else if is_digit(s[pos]) {
        let e = digits_end(s, pos);
        let v = digits_val(s, pos, e);
        &&& toks.len() > 0
        &&& toks[0].tokentype == TokenType::ILit
        &&& toks[0].num as int == v
        &&& v <= i32::MAX
        &&& toks[0].id is None
        &&& toks[0].position.0 == head
        &&& toks[0].position.1 as int == line
        &&& toks[0].position.2 as int == pos
        &&& pos < e <= s.len()
        &&& scan_ok(s, e, line, false, toks.skip(1))
    } else {
        match signal_spec(s, pos) {
            Some((tt, p2)) => {
                &&& toks.len() > 0
                &&& toks[0].tokentype == tt
                &&& toks[0].num == -1
                &&& toks[0].id is None
                &&& toks[0].position.0 == head
                &&& toks[0].position.1 as int == line
                &&& toks[0].position.2 as int == pos
                &&& pos < p2 <= s.len()
                &&& scan_ok(s, p2, line, false, toks.skip(1))
            },
            None => false,
        }
    }
}

/// The lexer: source text, preprocessed, to a token stream with the cursor
/// at its start. A token stream it accepts stands in the `scan_ok` relation
/// to the preprocessed text, which fixes every token's kind, value, lexeme
/// and position.
pub fn lex(program: &Vec<char>) -> (r: Result<TokenSet, LexError>)
    ensures
        r matches Ok(ts) ==> ts.pos == 0 && (match preprocess_spec(program@) {
            Ok(pp) => scan_ok(pp, 0, 1, true, ts.tokens@),
            Err(_) => false,
        }),
{
    let pgstr = preprocess(program)?;
    let ghost s = pgstr@;
    let n = pgstr.len();
    if n == usize::MAX {
        // a source this long cannot be addressed
        return Err(LexError::UnknownChar(0));
    }
    let mut tokens: Vec<Token> = Vec::new();
    let mut pos: usize = 0;
    let mut line: usize = 1;
    let mut head = true;
    while pos < n && pos + 1 < n
        invariant
            s == pgstr@,
            n == pgstr@.len(),
            n < usize::MAX,
            pos <= n,
            line <= pos + 1,
            forall|rest: Seq<Token>|
                scan_ok(s, pos as int, line as int, head, rest) ==> #[trigger] scan_ok(
                    s,
                    0,
                    1,
                    true,
                    tokens@ + rest,
                ),
        decreases n - pos,
    {
        // comment
        if two_at(&pgstr, pos, '(', '*') {
            let ghost pos0 = pos;
            let mut count: u64 = 1;
            pos = pos + 2;
            loop
                invariant_except_break
                    count >= 1,
                    count <= pos as u64,
                    comment_after(s, pos as int, count as int) == comment_after(
                        s,
                        pos0 + 2,
                        1,
                    ),
                invariant
                    s == pgstr@,
                    n == pgstr@.len(),
                    n < usize::MAX,
                    pos <= n,
                    pos >= pos0 + 2,
                ensures
                    comment_after(s, pos0 + 2, 1) == Some(pos as int),
                decreases n - pos,
            {
                if !(pos < n && pos + 1 < n) {
                    return Err(LexError::UnclosedComment(pos));
                }
                if two_at(&pgstr, pos, '(', '*') {
                    count = count + 1;
                } else if two_at(&pgstr, pos, '*', ')') {
                    proof {
                        assert(s[pos as int] == '*' && s[pos as int + 1] == ')');
                    }
                    pos = pos + 2;
                    count = count - 1;
                    if count == 0 {
                        proof {
                            assert(comment_after(s, pos as int - 2, 1int) == Some(pos as int));
                        }
                        break ;
                    }
                    if pos >= n {
                        return Err(LexError::UnclosedComment(pos));
                    }
                }
                pos = pos + 1;
            }
            proof {
                assert(comment_after(s, pos0 + 2, 1) == Some(pos as int));
                assert forall|rest: Seq<Token>|
                    scan_ok(s, pos as int, line as int, head, rest) implies #[trigger] scan_ok(
                    s,
                    0,
                    1,
                    true,
                    tokens@ + rest,
                ) by {
                    assert(scan_ok(s, pos0 as int, line as int, head, rest));
                }
            }
            continue ;
        }
        // identifier or keyword
        let ghost pos_w = pos as int;
        if let Some(token) = identify(&pgstr, &mut pos, line, head) {
            proof {
                let e = ident_end(s, pos_w + 1);
                let w = s.subrange(pos_w, e);
                assert forall|rest: Seq<Token>|
                    scan_ok(s, pos as int, line as int, false, rest) implies #[trigger] scan_ok(
                    s,
                    0,
                    1,
                    true,
                    tokens@.push(token) + rest,
                ) by {
                    assert((seq![token] + rest).skip(1) =~= rest);
                    assert(scan_ok(s, pos_w, line as int, head, seq![token] + rest));
                    assert(tokens@ + (seq![token] + rest) =~= tokens@.push(token) + rest);
                }
            }
            tokens.push(token);
            head = false;
            continue ;
        }
        let nchar = pgstr[pos];
        // newline
        if nchar == '\n' {
            proof {
                assert forall|rest: Seq<Token>|
                    scan_ok(s, pos + 1int, line + 1int, true, rest) implies #[trigger] scan_ok(
                    s,
                    0,
                    1,
                    true,
                    tokens@ + rest,
                ) by {
                    assert(scan_ok(s, pos as int, line as int, head, rest));
                }
            }
            line = line + 1;
            pos = pos + 1;
            head = true;
            continue ;
        }
        // space
        if nchar == ' ' {
            proof {
                assert forall|rest: Seq<Token>|
                    scan_ok(s, pos + 1int, line as int, head, rest) implies #[trigger] scan_ok(
                    s,
                    0,
                    1,
                    true,
                    tokens@ + rest,
                ) by {
                    assert(scan_ok(s, pos as int, line as int, head, rest));
                }
            }
            pos = pos + 1;
            continue ;
        }
        // integer literal
        if let Some(token) = number(&pgstr, &mut pos, line, head)? {
            proof {
                let e = digits_end(s, pos_w);
                assert(e > pos_w && is_digit(s[pos_w]));
                assert forall|rest: Seq<Token>|
                    scan_ok(s, pos as int, line as int, false, rest) implies #[trigger] scan_ok(
                    s,
                    0,
                    1,
                    true,
                    tokens@.push(token) + rest,
                ) by {
                    assert((seq![token] + rest).skip(1) =~= rest);
                    assert(scan_ok(s, pos_w, line as int, head, seq![token] + rest));
                    assert(tokens@ + (seq![token] + rest) =~= tokens@.push(token) + rest);
                }
            }
            tokens.push(token);
            head = false;
            continue ;
        }
        // operator or punctuation
        if let Some(token) = signal(&pgstr, &mut pos, line, head) {
            proof {
                assert forall|rest: Seq<Token>|
                    scan_ok(s, pos as int, line as int, false, rest) implies #[trigger] scan_ok(
                    s,
                    0,
                    1,
                    true,
                    tokens@.push(token) + rest,
                ) by {
                    assert((seq![token] + rest).skip(1) =~= rest);
                    assert(scan_ok(s, pos_w, line as int, head, seq![token] + rest));
                    assert(tokens@ + (seq![token] + rest) =~= tokens@.push(token) + rest);
                }
            }
            tokens.push(token);
            head = false;
            continue ;
        }
        return Err(LexError::UnknownChar(pos));
    }
    proof {
        assert(scan_ok(s, pos as int, line as int, head, Seq::empty()));
        assert(tokens@ + Seq::<Token>::empty() =~= tokens@);
    }
    Ok(TokenSet { tokens, pos: 0 })
}

} // verus!
