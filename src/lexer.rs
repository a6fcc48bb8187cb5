use vstd::prelude::*;
use vstd::string::StrSliceExecFns;
use vstd::string::StringExecFns;

verus! {

#[derive(Clone, Copy, Debug, PartialEq, Eq, Structural)]
pub enum TokenKind {
    Let,
    Identifier,
    While,
    IntLiteral,
    DoubleEq,
    Colon,
    If,
    Else,
    Eq,
    Plus,
    PlusEq,
    Minus,
    MinusEq,
    LBrace,
    RBrace,
    Eof,
}

/// A classified lexical unit. Identifiers, integer literals, keywords and
/// operators carry their source text; the end-of-input token carries none.
#[derive(Debug)]
pub struct Token {
    pub kind: TokenKind,
    pub value: Option<String>,
}

/// What a token stands for, with its text as a sequence of characters.
pub struct Lexeme {
    pub kind: TokenKind,
    pub text: Option<Seq<char>>,
}

impl View for Token {
    type V = Lexeme;

    open spec fn view(&self) -> Lexeme {
        Lexeme {
            kind: self.kind,
            text: match self.value {
                Some(s) => Some(s@),
                None => None,
            },
        }
    }
}

/// The views of a sequence of tokens.
pub open spec fn lexemes(ts: Seq<Token>) -> Seq<Lexeme> {
    ts.map_values(|t: Token| t@)
}

/// Characters with Unicode's White_Space property.
pub open spec fn is_space(c: char) -> bool {
    ||| '\u{9}' <= c <= '\u{d}'
    ||| c == ' '
    ||| c == '\u{85}'
    ||| c == '\u{a0}'
    ||| c == '\u{1680}'
    ||| '\u{2000}' <= c <= '\u{200a}'
    ||| c == '\u{2028}'
    ||| c == '\u{2029}'
    ||| c == '\u{202f}'
    ||| c == '\u{205f}'
    ||| c == '\u{3000}'
}

pub open spec fn is_digit(c: char) -> bool {
    '0' <= c <= '9'
}

pub open spec fn all_digits(s: Seq<char>) -> bool {
    forall|i: int| 0 <= i < s.len() ==> is_digit(#[trigger] s[i])
}

pub open spec fn all_space(s: Seq<char>) -> bool {
    forall|i: int| 0 <= i < s.len() ==> is_space(#[trigger] s[i])
}

/// A word: a non-empty run of characters none of which is whitespace.
pub open spec fn is_word(w: Seq<char>) -> bool {
    &&& w.len() > 0
    &&& forall|i: int| 0 <= i < w.len() ==> !is_space(#[trigger] w[i])
}

/// Length of the run of non-whitespace characters that starts `s`.
pub open spec fn word_len(s: Seq<char>) -> nat
    decreases s.len(),
{
    if s.len() == 0 || is_space(s[0]) {
        0
    } else {
        1 + word_len(s.drop_first())
    }
}

pub proof fn lemma_word_len_bounded(s: Seq<char>)
    ensures
        word_len(s) <= s.len(),
    decreases s.len(),
{
    if s.len() > 0 && !is_space(s[0]) {
        lemma_word_len_bounded(s.drop_first());
    }
}

/// The maximal runs of non-whitespace characters of `s`, in order.
pub open spec fn words(s: Seq<char>) -> Seq<Seq<char>>
    decreases s.len(),
{
    if s.len() == 0 {
        seq![]
    } else if is_space(s[0]) {
        words(s.drop_first())
    } else {
        proof {
            lemma_word_len_bounded(s);
        }
        seq![s.take(word_len(s) as int)] + words(s.skip(word_len(s) as int))
    }
}

/// The fixed spelling of a keyword or operator kind; empty for the kinds
/// whose text varies.
pub open spec fn spelling(k: TokenKind) -> Seq<char> {
    match k {
        TokenKind::Let => seq!['l', 'e', 't'],
        TokenKind::While => seq!['w', 'h', 'i', 'l', 'e'],
        TokenKind::If => seq!['i', 'f'],
        TokenKind::Else => seq!['e', 'l', 's', 'e'],
        TokenKind::Eq => seq!['='],
        TokenKind::DoubleEq => seq!['=', '='],
        TokenKind::Plus => seq!['+'],
        TokenKind::PlusEq => seq!['+', '='],
        TokenKind::Minus => seq!['-'],
        TokenKind::MinusEq => seq!['-', '='],
        TokenKind::Colon => seq![':'],
        TokenKind::LBrace => seq!['{'],
        TokenKind::RBrace => seq!['}'],
        TokenKind::Identifier | TokenKind::IntLiteral | TokenKind::Eof => seq![],
    }
}

/// Keyword and operator kinds, those with a fixed spelling.
pub open spec fn is_fixed(k: TokenKind) -> bool {
    !(k is Identifier || k is IntLiteral || k is Eof)
}

/// The keyword table: the kind whose spelling is `w`, else `Identifier`.
pub open spec fn word_kind(w: Seq<char>) -> TokenKind {
    if w == spelling(TokenKind::Let) {
        TokenKind::Let
    } else if w == spelling(TokenKind::While) {
        TokenKind::While
    } else if w == spelling(TokenKind::If) {
        TokenKind::If
    } else if w == spelling(TokenKind::Else) {
        TokenKind::Else
    } else if w == spelling(TokenKind::Eq) {
        TokenKind::Eq
    } else if w == spelling(TokenKind::DoubleEq) {
        TokenKind::DoubleEq
    } else if w == spelling(TokenKind::Plus) {
        TokenKind::Plus
    } else if w == spelling(TokenKind::PlusEq) {
        TokenKind::PlusEq
    } else if w == spelling(TokenKind::Minus) {
        TokenKind::Minus
    } else if w == spelling(TokenKind::MinusEq) {
        TokenKind::MinusEq
    } else if w == spelling(TokenKind::Colon) {
        TokenKind::Colon
    } else if w == spelling(TokenKind::LBrace) {
        TokenKind::LBrace
    } else if w == spelling(TokenKind::RBrace) {
        TokenKind::RBrace
    } else {
        TokenKind::Identifier
    }
}

/// A word that starts with a decimal digit is an integer literal; any other
/// word goes through the keyword table. Either way it keeps its text.
pub open spec fn lexeme_of(w: Seq<char>) -> Lexeme {
    Lexeme {
        kind: if w.len() > 0 && is_digit(w[0]) {
            TokenKind::IntLiteral
        } else {
            word_kind(w)
        },
        text: Some(w),
    }
}

pub open spec fn end_lexeme() -> Lexeme {
    Lexeme { kind: TokenKind::Eof, text: None }
}

/// The tokens of `s`: one per word, classified, then the end of input.
pub open spec fn lex(s: Seq<char>) -> Seq<Lexeme> {
    words(s).map_values(|w: Seq<char>| lexeme_of(w)).push(end_lexeme())
}

/// The text a token carries, empty where it carries none.
pub open spec fn text_of(t: Lexeme) -> Seq<char> {
    match t.text {
        Some(s) => s,
        None => seq![],
    }
}

pub open spec fn kinds(ls: Seq<Lexeme>) -> Seq<TokenKind> {
    ls.map_values(|l: Lexeme| l.kind)
}

/// The words of `ws` with `gaps[k]` between `ws[k]` and `ws[k + 1]`, and
/// nothing before the first word or after the last.
pub open spec fn separated(ws: Seq<Seq<char>>, gaps: Seq<Seq<char>>) -> Seq<char>
    decreases ws.len(),
{
    if ws.len() == 0 {
        seq![]
    } else if ws.len() == 1 {
        ws[0]
    } else {
        ws[0] + gaps[0] + separated(ws.drop_first(), gaps.drop_first())
    }
}

/// Every gap is a non-empty run of whitespace.
pub open spec fn are_gaps(gaps: Seq<Seq<char>>) -> bool {
    forall|k: int| 0 <= k < gaps.len() ==> (#[trigger] gaps[k]).len() > 0 && all_space(gaps[k])
}

/// Source text rebuilt from tokens: their texts, one space between each two.
pub open spec fn reconstruct(ts: Seq<Lexeme>) -> Seq<char> {
    separated(
        ts.drop_last().map_values(|t: Lexeme| text_of(t)),
        Seq::new(ts.len(), |k: int| seq![' ']),
    )
}

proof fn lemma_words_skip_space(gap: Seq<char>, rest: Seq<char>)
    requires
        all_space(gap),
    ensures
        words(gap + rest) == words(rest),
    decreases gap.len(),
{
    if gap.len() > 0 {
        assert((gap + rest).drop_first() =~= gap.drop_first() + rest);
        lemma_words_skip_space(gap.drop_first(), rest);
    } else {
        assert(gap + rest =~= rest);
    }
}

proof fn lemma_word_len_of_word(w: Seq<char>, rest: Seq<char>)
    requires
        forall|i: int| 0 <= i < w.len() ==> !is_space(#[trigger] w[i]),
        rest.len() == 0 || is_space(rest[0]),
    ensures
        word_len(w + rest) == w.len(),
    decreases w.len(),
{
    if w.len() > 0 {
        assert((w + rest).drop_first() =~= w.drop_first() + rest);
        lemma_word_len_of_word(w.drop_first(), rest);
    } else {
        assert(w + rest =~= rest);
    }
}

proof fn lemma_words_cons(w: Seq<char>, rest: Seq<char>)
    requires
        is_word(w),
        rest.len() == 0 || is_space(rest[0]),
    ensures
        words(w + rest) == seq![w] + words(rest),
{
    lemma_word_len_of_word(w, rest);
    let s = w + rest;
    assert(s[0] == w[0]);
    assert(s.take(w.len() as int) =~= w);
    assert(s.skip(w.len() as int) =~= rest);
}

proof fn lemma_words_of_separated(ws: Seq<Seq<char>>, gaps: Seq<Seq<char>>)
    requires
        forall|k: int| 0 <= k < ws.len() ==> is_word(#[trigger] ws[k]),
        gaps.len() + 1 >= ws.len(),
        are_gaps(gaps),
    ensures
        words(separated(ws, gaps)) == ws,
    decreases ws.len(),
{
    if ws.len() == 0 {
        assert(words(seq![]) =~= ws);
    } else if ws.len() == 1 {
        lemma_words_cons(ws[0], seq![]);
        assert(ws[0] + seq![] =~= ws[0]);
        assert(seq![ws[0]] + words(seq![]) =~= ws);
    } else {
        let gap = gaps[0];
        let tail = separated(ws.drop_first(), gaps.drop_first());
        assert(ws[0] + gap + tail =~= ws[0] + (gap + tail));
        assert((gap + tail)[0] == gap[0]);
        lemma_words_cons(ws[0], gap + tail);
        lemma_words_skip_space(gap, tail);
        assert(are_gaps(gaps.drop_first())) by {
            assert forall|k: int| 0 <= k < gaps.drop_first().len() implies (#[trigger] gaps.drop_first()[k]).len() > 0
                && all_space(gaps.drop_first()[k]) by {
                assert(gaps.drop_first()[k] == gaps[k + 1]);
            }
        }
        lemma_words_of_separated(ws.drop_first(), gaps.drop_first());
        assert(seq![ws[0]] + ws.drop_first() =~= ws);
    }
}

proof fn lemma_words_are_words(s: Seq<char>)
    ensures
        forall|k: int| 0 <= k < words(s).len() ==> is_word(#[trigger] words(s)[k]),
    decreases s.len(),
{
    if s.len() > 0 {
        if is_space(s[0]) {
            lemma_words_are_words(s.drop_first());
            assert(words(s) == words(s.drop_first()));
        } else {
            lemma_word_len_bounded(s);
            let n = word_len(s) as int;
            lemma_words_are_words(s.skip(n));
            lemma_word_is_word(s);
            let ws = words(s);
            assert(ws == seq![s.take(n)] + words(s.skip(n)));
            assert forall|k: int| 0 <= k < ws.len() implies is_word(#[trigger] ws[k]) by {
                if k == 0 {
                    assert(ws[0] == s.take(n));
                } else {
                    assert(ws[k] == words(s.skip(n))[k - 1]);
                }
            }
        }
    }
}

proof fn lemma_word_is_word(s: Seq<char>)
    requires
        s.len() > 0,
        !is_space(s[0]),
    ensures
        word_len(s) <= s.len(),
        is_word(s.take(word_len(s) as int)),
    decreases s.len(),
{
    lemma_word_len_bounded(s);
    let t = s.drop_first();
    assert(word_len(s) == 1 + word_len(t));
    let w = s.take(word_len(s) as int);
    if t.len() > 0 && !is_space(t[0]) {
        lemma_word_is_word(t);
        assert forall|i: int| 0 <= i < w.len() implies !is_space(#[trigger] w[i]) by {
            if i > 0 {
                assert(w[i] == t.take(word_len(t) as int)[i - 1]);
            }
        }
    } else {
        assert(word_len(t) == 0);
        assert(w[0] == s[0]);
    }
}

/// Source text made only of whitespace has no words: its tokens are the
/// end of input alone.
pub proof fn lemma_blank_source(s: Seq<char>)
    requires
        all_space(s),
    ensures
        lex(s) == seq![end_lexeme()],
{
    lemma_words_skip_space(s, seq![]);
    assert(s + seq![] =~= s);
    assert(lex(s) =~= seq![end_lexeme()]);
}

proof fn lemma_spelling(k: TokenKind)
    requires
        is_fixed(k),
    ensures
        is_word(spelling(k)),
        lexeme_of(spelling(k)).kind == k,
{
    let w = spelling(k);
    assert(w.len() > 0 && !is_digit(w[0]));
    assert(w != spelling(TokenKind::Let) ==> w.len() != 3 || w[0] != 'l');
    assert(w != spelling(TokenKind::While) ==> w.len() != 5 || w[0] != 'w');
    assert(w != spelling(TokenKind::If) ==> w.len() != 2 || w[0] != 'i');
    assert(w != spelling(TokenKind::Else) ==> w.len() != 4 || w[0] != 'e');
    assert(w != spelling(TokenKind::Eq) ==> w.len() != 1 || w[0] != '=');
    assert(w != spelling(TokenKind::DoubleEq) ==> w.len() != 2 || w[0] != '=');
    assert(w != spelling(TokenKind::Plus) ==> w.len() != 1 || w[0] != '+');
    assert(w != spelling(TokenKind::PlusEq) ==> w.len() != 2 || w[0] != '+');
    assert(w != spelling(TokenKind::Minus) ==> w.len() != 1 || w[0] != '-');
    assert(w != spelling(TokenKind::MinusEq) ==> w.len() != 2 || w[0] != '-');
    assert(w != spelling(TokenKind::Colon) ==> w.len() != 1 || w[0] != ':');
    assert(w != spelling(TokenKind::LBrace) ==> w.len() != 1 || w[0] != '{');
}

/// Keyword and operator spellings with a run of whitespace between each two
/// tokenise back to their kinds, in order, then the end of input.
pub proof fn lemma_spellings_round_trip(ks: Seq<TokenKind>, gaps: Seq<Seq<char>>)
    requires
        forall|k: int| 0 <= k < ks.len() ==> is_fixed(#[trigger] ks[k]),
        gaps.len() + 1 == ks.len() || (ks.len() == 0 && gaps.len() == 0),
        are_gaps(gaps),
    ensures
        kinds(lex(separated(ks.map_values(|k: TokenKind| spelling(k)), gaps))) == ks.push(
            TokenKind::Eof,
        ),
{
    let sp = ks.map_values(|k: TokenKind| spelling(k));
    assert forall|k: int| 0 <= k < sp.len() implies is_word(#[trigger] sp[k]) by {
        lemma_spelling(ks[k]);
    }
    lemma_words_of_separated(sp, gaps);
    assert forall|k: int| 0 <= k < ks.len() implies lexeme_of(#[trigger] sp[k]).kind == ks[k] by {
        lemma_spelling(ks[k]);
    }
    assert(kinds(lex(separated(sp, gaps))) =~= ks.push(TokenKind::Eof));
}

/// A run of digits with only whitespace around it is one integer literal
/// token carrying exactly those digits.
pub proof fn lemma_digit_run(before: Seq<char>, digits: Seq<char>, after: Seq<char>)
    requires
        all_space(before),
        all_space(after),
        digits.len() > 0,
        all_digits(digits),
    ensures
        lex(before + digits + after) == seq![
            Lexeme { kind: TokenKind::IntLiteral, text: Some(digits) },
            end_lexeme(),
        ],
{
    assert(before + digits + after =~= before + (digits + after));
    lemma_words_skip_space(before, digits + after);
    assert(after.len() == 0 || is_space(after[0]));
    lemma_words_cons(digits, after);
    lemma_words_skip_space(after, seq![]);
    assert(after + seq![] =~= after);
    assert(words(before + digits + after) =~= seq![digits]);
    assert(lex(before + digits + after) =~= seq![
        Lexeme { kind: TokenKind::IntLiteral, text: Some(digits) },
        end_lexeme(),
    ]);
}

/// Tokenising the text rebuilt from a tokenisation gives the same tokens,
/// kinds and texts alike.
pub proof fn lemma_retokenise(s: Seq<char>)
    ensures
        lex(reconstruct(lex(s))) == lex(s),
{
    let ws = words(s);
    let texts = lex(s).drop_last().map_values(|t: Lexeme| text_of(t));
    assert(texts =~= ws);
    lemma_words_are_words(s);
    let gaps = Seq::new(lex(s).len(), |k: int| seq![' ']);
    assert forall|k: int| 0 <= k < gaps.len() implies (#[trigger] gaps[k]).len() > 0 && all_space(
        gaps[k],
    ) by {
        assert(is_space(gaps[k][0]));
    }
    lemma_words_of_separated(ws, gaps);
}

/// Relies on `char::is_whitespace`, documented as the White_Space property.
#[verifier::external_body]
fn is_whitespace(c: char) -> (r: bool)
    ensures
        r == is_space(c),
{
    c.is_whitespace()
}

impl Token {
    pub fn new(kind: TokenKind, value: Option<String>) -> (t: Token)
        ensures
            t.kind == kind,
            t.value == value,
    {
        Token { kind, value }
    }
}

/// The kind that the keyword table gives to `w`.
fn keyword_kind(w: &str) -> (k: TokenKind)
    ensures
        k == word_kind(w@),
{
    let n = w.unicode_len();
    if n == 1 {
        let a = w.get_char(0);
        if a == '=' {
            assert(w@ =~= spelling(TokenKind::Eq));
            TokenKind::Eq
        } else if a == '+' {
            assert(w@ =~= spelling(TokenKind::Plus));
            TokenKind::Plus
        } else if a == '-' {
            assert(w@ =~= spelling(TokenKind::Minus));
            TokenKind::Minus
        } else if a == ':' {
            assert(w@ =~= spelling(TokenKind::Colon));
            TokenKind::Colon
        } else if a == '{' {
            assert(w@ =~= spelling(TokenKind::LBrace));
            TokenKind::LBrace
        } else if a == '}' {
            assert(w@ =~= spelling(TokenKind::RBrace));
            TokenKind::RBrace
        } else {
            TokenKind::Identifier
        }
    } else if n == 2 {
        let a = w.get_char(0);
        let b = w.get_char(1);
        if a == '=' && b == '=' {
            assert(w@ =~= spelling(TokenKind::DoubleEq));
            TokenKind::DoubleEq
        } else if a == '+' && b == '=' {
            assert(w@ =~= spelling(TokenKind::PlusEq));
            TokenKind::PlusEq
        } else if a == '-' && b == '=' {
            assert(w@ =~= spelling(TokenKind::MinusEq));
            TokenKind::MinusEq
        } else if a == 'i' && b == 'f' {
            assert(w@ =~= spelling(TokenKind::If));
            TokenKind::If
        } else {
            TokenKind::Identifier
        }
    } else if n == 3 {
        if w.get_char(0) == 'l' && w.get_char(1) == 'e' && w.get_char(2) == 't' {
            assert(w@ =~= spelling(TokenKind::Let));
            TokenKind::Let
        } else {
            TokenKind::Identifier
        }
    } else if n == 4 {
        if w.get_char(0) == 'e' && w.get_char(1) == 'l' && w.get_char(2) == 's' && w.get_char(3)
            == 'e' {
            assert(w@ =~= spelling(TokenKind::Else));
            TokenKind::Else
        } else {
            TokenKind::Identifier
        }
    } else if n == 5 {
        if w.get_char(0) == 'w' && w.get_char(1) == 'h' && w.get_char(2) == 'i' && w.get_char(3)
            == 'l' && w.get_char(4) == 'e' {
            assert(w@ =~= spelling(TokenKind::While));
            TokenKind::While
        } else {
            TokenKind::Identifier
        }
    } else {
        TokenKind::Identifier
    }
}

/// Splits `source` at whitespace into words and classifies each one: a word
/// that starts with a digit is an integer literal, a keyword or operator
/// spelling gets its own kind, anything else is an identifier. One
/// end-of-input token closes the sequence.
pub fn tokenise(source: String) -> (tokens: Vec<Token>)
    ensures
        lexemes(tokens@) == lex(source@),
{
    let text = source.as_str();
    let n = text.unicode_len();
    let ghost s = source@;
    let mut tokens: Vec<Token> = Vec::new();
    let mut i: usize = 0;
    assert(s.skip(0) =~= s);
    assert(lexemes(tokens@) =~= Seq::<Lexeme>::empty());
    while i < n
        invariant
            n == s.len(),
            text@ == s,
            i <= n,
            lexemes(tokens@) + words(s.skip(i as int)).map_values(|w: Seq<char>| lexeme_of(w))
                == words(s).map_values(|w: Seq<char>| lexeme_of(w)),
        decreases n - i,
    {
        let c = text.get_char(i);
        if is_whitespace(c) {
            assert(s.skip(i as int).drop_first() =~= s.skip(i + 1));
            i = i + 1;
        } else {
            let mut j: usize = i + 1;
            assert(s.skip(i as int).drop_first() =~= s.skip(j as int));
            while j < n && !is_whitespace(text.get_char(j))
                invariant
                    n == s.len(),
                    text@ == s,
                    i < j <= n,
                    word_len(s.skip(i as int)) == (j - i) + word_len(s.skip(j as int)),
                decreases n - j,
            {
                assert(s.skip(j as int).drop_first() =~= s.skip(j + 1));
                j = j + 1;
            }
            let word = text.substring_char(i, j);
            let ghost rest = s.skip(i as int);
            assert(rest.take(word_len(rest) as int) =~= word@);
            assert(rest.skip(word_len(rest) as int) =~= s.skip(j as int));
            let kind = if is_digit_char(c) {
                TokenKind::IntLiteral
            } else {
                keyword_kind(word)
            };
            let token = Token::new(kind, Some(String::from_str(word)));
            let ghost before = tokens@;
            tokens.push(token);
            assert(lexemes(tokens@) =~= lexemes(before).push(lexeme_of(word@)));
            i = j;
        }
    }
    assert(s.skip(n as int) =~= Seq::<char>::empty());
    let ghost before = tokens@;
    tokens.push(Token::new(TokenKind::Eof, None));
    assert(lexemes(tokens@) =~= lexemes(before).push(end_lexeme()));
    tokens
}

fn is_digit_char(c: char) -> (r: bool)
    ensures
        r == is_digit(c),
{
    '0' <= c && c <= '9'
}

} // verus!
