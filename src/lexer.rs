use vstd::prelude::*;
use crate::strategy::same_text;
use crate::token::{Loc, Token, TokenKind, TokenView, tokens_wf};

verus! {

/// Letters, digits and the underscore make up identifiers; a run of digits
/// is an identifier too, which is how numeric strategies are written.
pub open spec fn is_word_char(c: char) -> bool {
    ('a' <= c && c <= 'z') || ('A' <= c && c <= 'Z') || ('0' <= c && c <= '9') || c == '_'
}

pub open spec fn is_blank(c: char) -> bool {
    c == ' ' || c == '\t' || c == '\r' || c == '\n'
}

/// The kind of a word: a keyword, or an identifier.
pub open spec fn word_kind(w: Seq<char>) -> TokenKind {
    if w == "rule"@ {
        TokenKind::Rule
    } else if w == "shape"@ {
        TokenKind::Shape
    } else if w == "apply"@ {
        TokenKind::Apply
    } else if w == "done"@ {
        TokenKind::Done
    } else if w == "undo"@ {
        TokenKind::Undo
    } else if w == "quit"@ {
        TokenKind::Quit
    } else if w == "delete"@ {
        TokenKind::Delete
    } else if w == "reverse"@ {
        TokenKind::Reverse
    } else {
        TokenKind::Ident
    }
}

/// The kind of a one-character token.
pub open spec fn punct_kind(c: char) -> TokenKind {
    if c == '(' {
        TokenKind::OpenParen
    } else if c == ')' {
        TokenKind::CloseParen
    } else if c == ',' {
        TokenKind::Comma
    } else if c == '=' {
        TokenKind::Equals
    } else if c == '+' {
        TokenKind::Plus
    } else if c == '-' {
        TokenKind::Dash
    } else if c == '*' {
        TokenKind::Asterisk
    } else if c == '/' {
        TokenKind::Slash
    } else if c == '^' {
        TokenKind::Caret
    } else {
        TokenKind::Invalid
    }
}

/// The end of the run of word characters that starts at `i`.
pub open spec fn word_end(cs: Seq<char>, i: nat) -> nat
    decreases cs.len() - i,
{
    if i < cs.len() && is_word_char(cs[i as int]) {
        word_end(cs, i + 1)
    } else {
        i
    }
}

/// The tokens of `cs` from position `i`, which stands at `row` and `col`.
pub open spec fn lex_from(cs: Seq<char>, i: nat, row: nat, col: nat) -> Seq<TokenView>
    decreases cs.len() - i,
{
    if i >= cs.len() {
        Seq::empty()
    } else {
        let c = cs[i as int];
        if c == '\n' {
            lex_from(cs, i + 1, row + 1, 1)
        } else if is_blank(c) {
            lex_from(cs, i + 1, row, col + 1)
        } else if is_word_char(c) {
            let j = word_end(cs, i);
            let w = cs.subrange(i as int, j as int);
            if i < j <= cs.len() {
                seq![
                    TokenView {
                        kind: word_kind(w),
                        text: w,
                        loc: Loc { row: row as usize, col: col as usize },
                    },
                ] + lex_from(cs, j, row, (col + (j - i)) as nat)
            } else {
                Seq::empty()
            }
        } else {
            seq![
                TokenView {
                    kind: punct_kind(c),
                    text: seq![c],
                    loc: Loc { row: row as usize, col: col as usize },
                },
            ] + lex_from(cs, i + 1, row, col + 1)
        }
    }
}

/// The tokens of a whole text, which starts at row 1, column 1.
pub open spec fn lex_spec(cs: Seq<char>) -> Seq<TokenView> {
    lex_from(cs, 0, 1, 1)
}

/// The position just past the text: where its end-of-input token stands.
pub open spec fn end_loc_from(cs: Seq<char>, i: nat, row: nat, col: nat) -> Loc
    decreases cs.len() - i,
{
    if i >= cs.len() {
        Loc { row: row as usize, col: col as usize }
    } else if cs[i as int] == '\n' {
        end_loc_from(cs, i + 1, row + 1, 1)
    } else {
        end_loc_from(cs, i + 1, row, col + 1)
    }
}

proof fn lemma_word_end(cs: Seq<char>, i: nat)
    requires
        i <= cs.len(),
    ensures
        i <= word_end(cs, i) <= cs.len(),
        forall|k: int| i <= k < word_end(cs, i) ==> is_word_char(#[trigger] cs[k]),
        word_end(cs, i) < cs.len() ==> !is_word_char(cs[word_end(cs, i) as int]),
    decreases cs.len() - i,
{
    if i < cs.len() && is_word_char(cs[i as int]) {
        lemma_word_end(cs, i + 1);
    }
}

proof fn lemma_lex_wf(cs: Seq<char>, i: nat, row: nat, col: nat)
    ensures
        tokens_wf(lex_from(cs, i, row, col)),
    decreases cs.len() - i,
{
    if i < cs.len() {
        let c = cs[i as int];
        if c == '\n' {
            lemma_lex_wf(cs, i + 1, row + 1, 1);
        } else if is_blank(c) {
            lemma_lex_wf(cs, i + 1, row, col + 1);
        } else if is_word_char(c) {
            let j = word_end(cs, i);
            lemma_word_end(cs, i);
            lemma_lex_wf(cs, j, row, (col + (j - i)) as nat);
            let rest = lex_from(cs, j, row, (col + (j - i)) as nat);
            let all = lex_from(cs, i, row, col);
            assert forall|k: int|
                0 <= k < all.len() && (#[trigger] all[k]).kind == TokenKind::Ident implies all[k].text.len()
                > 0 by {
                if k > 0 {
                    assert(all[k] == rest[k - 1]);
                }
            }
        } else {
            lemma_lex_wf(cs, i + 1, row, col + 1);
            let rest = lex_from(cs, i + 1, row, col + 1);
            let all = lex_from(cs, i, row, col);
            assert forall|k: int|
                0 <= k < all.len() && (#[trigger] all[k]).kind == TokenKind::Ident implies all[k].text.len()
                > 0 by {
                if k > 0 {
                    assert(all[k] == rest[k - 1]);
                }
            }
        }
    }
}

/// Relies on `String::from_iter` over characters: the string holds the
/// characters in order.
#[verifier::external_body]
fn string_of_chars(cs: &[char]) -> (r: String)
    ensures
        r@ == cs@,
{
    String::from_iter(cs.iter())
}

fn word_kind_of(w: &String) -> (r: TokenKind)
    ensures
        r == word_kind(w@),
{
    let s = w.as_str();
    if same_text(s, "rule") {
        TokenKind::Rule
    } else if same_text(s, "shape") {
        TokenKind::Shape
    } else if same_text(s, "apply") {
        TokenKind::Apply
    } else if same_text(s, "done") {
        TokenKind::Done
    } else if same_text(s, "undo") {
        TokenKind::Undo
    } else if same_text(s, "quit") {
        TokenKind::Quit
    } else if same_text(s, "delete") {
        TokenKind::Delete
    } else if same_text(s, "reverse") {
        TokenKind::Reverse
    } else {
        TokenKind::Ident
    }
}

fn punct_kind_of(c: char) -> (r: TokenKind)
    ensures
        r == punct_kind(c),
{
    if c == '(' {
        TokenKind::OpenParen
    } else if c == ')' {
        TokenKind::CloseParen
    } else if c == ',' {
        TokenKind::Comma
    } else if c == '=' {
        TokenKind::Equals
    } else if c == '+' {
        TokenKind::Plus
    } else if c == '-' {
        TokenKind::Dash
    } else if c == '*' {
        TokenKind::Asterisk
    } else if c == '/' {
        TokenKind::Slash
    } else if c == '^' {
        TokenKind::Caret
    } else {
        TokenKind::Invalid
    }
}

fn char_is_word(c: char) -> (r: bool)
    ensures
        r == is_word_char(c),
{
    ('a' <= c && c <= 'z') || ('A' <= c && c <= 'Z') || ('0' <= c && c <= '9') || c == '_'
}

/// The views of a list of tokens.
pub open spec fn token_views(ts: Seq<Token>) -> Seq<TokenView> {
    ts.map_values(|t: Token| t@)
}

/// Splits a text into tokens. Blanks separate tokens; a newline starts a new
/// row. Returns the tokens and the location of the end of input.
pub fn lex(cs: &[char]) -> (r: (Vec<Token>, Loc))
    requires
        cs@.len() < usize::MAX,
    ensures
        token_views(r.0@) == lex_spec(cs@),
        tokens_wf(token_views(r.0@)),
        r.1 == end_loc_from(cs@, 0, 1, 1),
{
    let mut tokens: Vec<Token> = Vec::new();
    let mut i: usize = 0;
    let mut row: usize = 1;
    let mut col: usize = 1;
    let n = cs.len();
    while i < n
        invariant
            n == cs@.len(),
            n < usize::MAX,
            i <= n,
            1 <= row <= i + 1,
            1 <= col <= i + 1,
            lex_spec(cs@) == token_views(tokens@) + lex_from(cs@, i as nat, row as nat, col as nat),
            end_loc_from(cs@, 0, 1, 1) == end_loc_from(cs@, i as nat, row as nat, col as nat),
        decreases n - i,
    {
        let ghost before = token_views(tokens@);
        let c = cs[i];
        if c == '\n' {
            i += 1;
            row += 1;
            col = 1;
        } else if c == ' ' || c == '\t' || c == '\r' {
            i += 1;
            col += 1;
        } else if char_is_word(c) {
            let mut j: usize = i;
            proof {
                lemma_word_end(cs@, i as nat);
            }
            while j < n && char_is_word(cs[j])
                invariant
                    n == cs@.len(),
                    i <= j <= n,
                    j <= word_end(cs@, i as nat),
                    word_end(cs@, i as nat) <= n,
                    forall|k: int| i <= k < word_end(cs@, i as nat) ==> is_word_char(#[trigger] cs@[k]),
                    word_end(cs@, i as nat) < n ==> !is_word_char(cs@[word_end(cs@, i as nat) as int]),
                decreases n - j,
            {
                j += 1;
            }
            let text = string_of_chars(&cs[i..j]);
            let kind = word_kind_of(&text);
            let ghost w = cs@.subrange(i as int, j as int);
            assert(text@ == w);
            tokens.push(Token { kind, text, loc: Loc { row, col } });
            proof {
                assert(token_views(tokens@) =~= before.push(
                    TokenView { kind: word_kind(w), text: w, loc: Loc { row, col } },
                ));
                assert(end_loc_from(cs@, i as nat, row as nat, col as nat) == end_loc_from(
                    cs@,
                    j as nat,
                    row as nat,
                    (col + (j - i)) as nat,
                )) by {
                    lemma_end_loc_word(cs@, i as nat, j as nat, row as nat, col as nat);
                }
            }
            col = col + (j - i);
            i = j;
        } else {
            let text = string_of_chars(&cs[i..i + 1]);
            let ghost w = cs@.subrange(i as int, i + 1);
            assert(w =~= seq![c]);
            tokens.push(Token { kind: punct_kind_of(c), text, loc: Loc { row, col } });
            proof {
                assert(token_views(tokens@) =~= before.push(
                    TokenView { kind: punct_kind(c), text: seq![c], loc: Loc { row, col } },
                ));
            }
            i += 1;
            col += 1;
        }
    }
    proof {
        lemma_lex_wf(cs@, 0, 1, 1);
        assert(token_views(tokens@) + Seq::<TokenView>::empty() =~= token_views(tokens@));
    }
    (tokens, Loc { row, col })
}

proof fn lemma_end_loc_word(cs: Seq<char>, i: nat, j: nat, row: nat, col: nat)
    requires
        i <= j <= cs.len(),
        forall|k: int| i <= k < j ==> is_word_char(#[trigger] cs[k]),
    ensures
        end_loc_from(cs, i, row, col) == end_loc_from(cs, j, row, (col + (j - i)) as nat),
    decreases j - i,
{
    if i < j {
        assert(is_word_char(cs[i as int]));
        lemma_end_loc_word(cs, i + 1, j, row, col + 1);
    }
}

} // verus!
