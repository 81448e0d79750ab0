//! Trivia-carrying tokens, the document they form, and the lossless
//! text <-> document conversion.
use vstd::prelude::*;
use crate::text::str_eq;

verus! {

/// A significant token with the whitespace and comments around it.
#[derive(Debug, Clone)]
pub struct Token {
    pub leading: String,
    pub text: String,
    pub trailing: String,
}

impl View for Token {
    type V = (Seq<char>, Seq<char>, Seq<char>);

    /// Leading trivia, text and trailing trivia.
    open spec fn view(&self) -> Self::V {
        (self.leading@, self.text@, self.trailing@)
    }
}

/// Views of a token sequence.
pub open spec fn token_views(s: Seq<Token>) -> Seq<(Seq<char>, Seq<char>, Seq<char>)> {
    s.map_values(|t: Token| t@)
}

/// A token equal to `t`.
pub fn copy_token(t: &Token) -> (r: Token)
    ensures
        r@ == t@,
{
    Token { leading: t.leading.clone(), text: t.text.clone(), trailing: t.trailing.clone() }
}

/// A parsed file: its significant tokens in order, the last one being an end
/// marker with empty text that carries whatever trivia closes the file.
#[derive(Debug, Clone)]
pub struct Document {
    pub tokens: Vec<Token>,
}

/// Why a text could not be read as a document.
#[derive(Debug, Clone)]
pub struct ParseError {
    pub message: String,
}

/// The exact text a token stands for.
pub open spec fn token_text(t: Token) -> Seq<char> {
    t.leading@ + t.text@ + t.trailing@
}

/// Tokens printed back to back.
pub open spec fn render_tokens(s: Seq<Token>) -> Seq<char>
    decreases s.len(),
{
    if s.len() == 0 {
        Seq::empty()
    } else {
        render_tokens(s.drop_last()) + token_text(s.last())
    }
}

/// Strings concatenated in order.
pub open spec fn flatten(s: Seq<Seq<char>>) -> Seq<char>
    decreases s.len(),
{
    if s.len() == 0 {
        Seq::empty()
    } else {
        flatten(s.drop_last()) + s.last()
    }
}

/// Views of a sequence of strings.
pub open spec fn string_views(s: Seq<String>) -> Seq<Seq<char>> {
    s.map_values(|x: String| x@)
}

/// Whether a lexeme is trivia: whitespace, a comment, a shebang line, a byte
/// order mark, or the empty end-of-input lexeme.
pub open spec fn is_trivia(s: Seq<char>) -> bool {
    s.len() == 0 || s[0] == ' ' || s[0] == '\t' || s[0] == '\r' || s[0] == '\n'
        || s[0] == '\u{feff}' || (s.len() >= 2 && s[0] == '-' && s[1] == '-')
        || (s.len() >= 2 && s[0] == '#' && s[1] == '!')
}

/// The significant lexemes of a lexeme sequence, in order.
pub open spec fn significant(s: Seq<Seq<char>>) -> Seq<Seq<char>>
    decreases s.len(),
{
    if s.len() == 0 {
        Seq::empty()
    } else if is_trivia(s.last()) {
        significant(s.drop_last())
    } else {
        significant(s.drop_last()).push(s.last())
    }
}

/// The tokens that lexemes `lx` form when `pending` trivia comes before them:
/// each significant lexeme takes the trivia before it as leading trivia, and a
/// final end marker with empty text takes the trivia after the last one.
pub open spec fn group_spec(lx: Seq<Seq<char>>, pending: Seq<char>) -> Seq<
    (Seq<char>, Seq<char>, Seq<char>),
>
    decreases lx.len(),
{
    if lx.len() == 0 {
        seq![(pending, Seq::empty(), Seq::empty())]
    } else if is_trivia(lx[0]) {
        group_spec(lx.drop_first(), pending + lx[0])
    } else {
        seq![(pending, lx[0], Seq::empty())] + group_spec(lx.drop_first(), Seq::empty())
    }
}

/// The texts of a token sequence.
pub open spec fn texts(s: Seq<Token>) -> Seq<Seq<char>> {
    s.map_values(|t: Token| t.text@)
}

/// What the Lua lexer gives for a source text: the text of each lexeme, trivia
/// included, in order.
pub uninterp spec fn lua_lexemes(s: Seq<char>) -> Seq<Seq<char>>;

/// Whether a source text is accepted by the Lua parser.
pub uninterp spec fn lua_parses(s: Seq<char>) -> bool;

/// Relies on `full_moon::parse`: whether the text is valid Lua, with the
/// parser's diagnostic when it is not (its display always starts with
/// `error occurred while`).
#[verifier::external_body]
fn lua_syntax_error(text: &str) -> (r: Option<String>)
    ensures
        r is None <==> lua_parses(text@),
        r matches Some(m) ==> m@.len() > 0,
{
    full_moon::parse(text).err().map(|e| e.to_string())
}

/// Relies on `full_moon::tokenizer::tokens`, which succeeds on every text that
/// `full_moon::parse` accepts (the parser lexes with it first), and on each
/// token printing back the exact source slice it was read from (the crate is
/// a lossless parser).
#[verifier::external_body]
fn lua_lex(text: &str) -> (r: Option<Vec<String>>)
    ensures
        lua_parses(text@) ==> r is Some,
        r matches Some(v) ==> string_views(v@) == lua_lexemes(text@),
        r matches Some(v) ==> flatten(string_views(v@)) == text@,
{
    full_moon::tokenizer::tokens(text).ok().map(|v| v.iter().map(|t| t.to_string()).collect())
}

/// Whether a lexeme is trivia.
pub fn lexeme_is_trivia(s: &str) -> (r: bool)
    ensures
        r == is_trivia(s@),
{
    let n = s.unicode_len();
    if n == 0 {
        return true;
    }
    let c = s.get_char(0);
    if c == ' ' || c == '\t' || c == '\r' || c == '\n' || c == '\u{feff}' {
        return true;
    }
    if n >= 2 {
        let d = s.get_char(1);
        (c == '-' && d == '-') || (c == '#' && d == '!')
    } else {
        false
    }
}

proof fn lemma_render_push(s: Seq<Token>, t: Token)
    ensures
        render_tokens(s.push(t)) == render_tokens(s) + token_text(t),
{
    assert(s.push(t).drop_last() == s);
}

/// Groups lexemes into tokens: each significant lexeme takes the trivia before
/// it as leading trivia, and a final end marker takes the trivia after the last
/// one.
pub fn group_lexemes(lexemes: &Vec<String>) -> (r: Vec<Token>)
    ensures
        render_tokens(r@) == flatten(string_views(lexemes@)),
        texts(r@) == significant(string_views(lexemes@)).push(Seq::empty()),
        token_views(r@) == group_spec(string_views(lexemes@), Seq::empty()),
{
    let ghost lx = string_views(lexemes@);
    let mut out: Vec<Token> = Vec::new();
    let mut pending = String::new();
    let mut i: usize = 0;
    assert(token_views(out@) =~= Seq::<(Seq<char>, Seq<char>, Seq<char>)>::empty());
    assert(lx.subrange(0, lx.len() as int) =~= lx);
    assert(pending@ =~= Seq::<char>::empty());
    assert(Seq::<(Seq<char>, Seq<char>, Seq<char>)>::empty() + group_spec(lx, Seq::empty())
        =~= group_spec(lx, Seq::empty()));
    while i < lexemes.len()
        invariant
            i <= lexemes@.len(),
            lx == string_views(lexemes@),
            render_tokens(out@) + pending@ == flatten(lx.subrange(0, i as int)),
            texts(out@) == significant(lx.subrange(0, i as int)),
            token_views(out@) + group_spec(lx.subrange(i as int, lx.len() as int), pending@)
                == group_spec(lx, Seq::empty()),
        decreases lexemes@.len() - i,
    {
        let ghost pre = lx.subrange(0, i as int);
        assert(lx.subrange(0, i + 1).drop_last() == pre);
        let ghost tail = lx.subrange(i as int, lx.len() as int);
        assert(tail.drop_first() =~= lx.subrange(i + 1, lx.len() as int));
        assert(tail[0] == lx[i as int]);
        let ghost before = token_views(out@);
        let lex = lexemes[i].as_str();
        if lexeme_is_trivia(lex) {
            pending.append(lex);
            assert(render_tokens(out@) + pending@ == flatten(pre) + lx[i as int]);
            assert(token_views(out@) == before);
        } else {
            let t = Token { leading: pending, text: lex.to_owned(), trailing: String::new() };
            proof {
                lemma_render_push(out@, t);
                assert(texts(out@.push(t)) == texts(out@).push(t.text@));
            }
            let ghost tv = t@;
            out.push(t);
            pending = String::new();
            assert(render_tokens(out@) + pending@ == render_tokens(out@));
            assert(token_views(out@) =~= before.push(tv));
            assert(before + (seq![tv] + group_spec(lx.subrange(i + 1, lx.len() as int), Seq::empty()))
                =~= before.push(tv) + group_spec(lx.subrange(i + 1, lx.len() as int), pending@));
        }
        i = i + 1;
    }
    assert(lx.subrange(0, i as int) == lx);
    assert(lx.subrange(i as int, lx.len() as int) =~= Seq::<Seq<char>>::empty());
    let ghost before = token_views(out@);
    let end = Token { leading: pending, text: String::new(), trailing: String::new() };
    proof {
        lemma_render_push(out@, end);
        assert(texts(out@.push(end)) == texts(out@).push(end.text@));
        assert(token_text(end) == pending@);
    }
    let ghost ev = end@;
    out.push(end);
    assert(token_views(out@) =~= before.push(ev));
    assert(before + seq![ev] =~= before.push(ev));
    out
}

/// Reads a text as a document, failing when it is not valid Lua.
pub fn parse(text: &str) -> (r: Result<Document, ParseError>)
    ensures
        r is Ok <==> lua_parses(text@),
        r matches Err(e) ==> e.message@.len() > 0,
        r matches Ok(d) ==> render_tokens(d.tokens@) == text@,
        r matches Ok(d) ==> texts(d.tokens@) == significant(lua_lexemes(text@)).push(Seq::empty()),
        r matches Ok(d) ==> token_views(d.tokens@) == group_spec(lua_lexemes(text@), Seq::empty()),
{
    match lua_syntax_error(text) {
        Some(message) => Err(ParseError { message }),
        None => match lua_lex(text) {
            Some(lexemes) => Ok(Document { tokens: group_lexemes(&lexemes) }),
            None => {
                proof {
                    reveal_strlit("the text could not be split into tokens");
                }
                let message = "the text could not be split into tokens".to_owned();
                Err(ParseError { message })
            },
        },
    }
}

/// Prints tokens back to text.
pub fn render_token_seq(tokens: &Vec<Token>) -> (r: String)
    ensures
        r@ == render_tokens(tokens@),
{
    let mut out = String::new();
    let mut i: usize = 0;
    while i < tokens.len()
        invariant
            i <= tokens@.len(),
            out@ == render_tokens(tokens@.subrange(0, i as int)),
        decreases tokens@.len() - i,
    {
        assert(tokens@.subrange(0, i + 1).drop_last() == tokens@.subrange(0, i as int));
        out.append(tokens[i].leading.as_str());
        out.append(tokens[i].text.as_str());
        out.append(tokens[i].trailing.as_str());
        i = i + 1;
    }
    assert(tokens@.subrange(0, i as int) == tokens@);
    out
}

/// Prints a document back to text.
pub fn render(doc: &Document) -> (r: String)
    ensures
        r@ == render_tokens(doc.tokens@),
{
    render_token_seq(&doc.tokens)
}

} // verus!
