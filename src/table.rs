//! Table constructors: their fields, the values read from them, and the one
//! edit made to them.
use vstd::prelude::*;
use crate::syntax::{copy_token, token_views, Token};
use crate::text::str_eq;

verus! {

/// The view of a token: leading trivia, text, trailing trivia.
pub type TokenV = (Seq<char>, Seq<char>, Seq<char>);

/// The view of a field: its tokens, then its separator if it has one.
pub type FieldV = (Seq<TokenV>, Option<TokenV>);

/// One element of a table constructor and the `,` or `;` after it.
#[derive(Debug, Clone)]
pub struct Field {
    pub tokens: Vec<Token>,
    pub separator: Option<Token>,
}

impl View for Field {
    type V = FieldV;

    open spec fn view(&self) -> FieldV {
        (token_views(self.tokens@), match self.separator {
            Some(t) => Some(t@),
            None => None,
        })
    }
}

/// A `{ ... }` expression: its delimiters and its fields in order.
#[derive(Debug, Clone)]
pub struct TableConstructor {
    pub open: Token,
    pub fields: Vec<Field>,
    pub close: Token,
}

/// Views of a field sequence.
pub open spec fn field_views(s: Seq<Field>) -> Seq<FieldV> {
    s.map_values(|f: Field| f@)
}

impl View for TableConstructor {
    type V = (TokenV, Seq<FieldV>, TokenV);

    open spec fn view(&self) -> Self::V {
        (self.open@, field_views(self.fields@), self.close@)
    }
}

/// Whether a token text is a string literal: quoted, or in long brackets.
pub open spec fn is_string_literal(s: Seq<char>) -> bool {
    s.len() >= 2 && (s[0] == '"' || s[0] == '\'' || (s[0] == '[' && (s[1] == '[' || s[1]
        == '=')))
}

/// Whether the field is `key = ...`.
pub open spec fn names_key(f: FieldV, key: Seq<char>) -> bool {
    f.0.len() >= 2 && f.0[0].1 == key && f.0[1].1 == seq!['=']
}

/// Whether the field is `key = <string literal>`.
pub open spec fn keyed_string_at(f: FieldV, key: Seq<char>) -> bool {
    names_key(f, key) && f.0.len() == 3 && is_string_literal(f.0[2].1)
}

/// Whether the field is a lone string literal.
pub open spec fn positional_string_at(f: FieldV) -> bool {
    f.0.len() == 1 && is_string_literal(f.0[0].1)
}

/// Index of the first field at or after `from` that is `key = <string literal>`.
pub open spec fn first_keyed_string(fs: Seq<FieldV>, key: Seq<char>, from: int) -> Option<int>
    decreases fs.len() - from,
{
    if from < 0 || from >= fs.len() {
        None
    } else if keyed_string_at(fs[from], key) {
        Some(from)
    } else {
        first_keyed_string(fs, key, from + 1)
    }
}

/// Index of the first field at or after `from` that is a lone string literal.
pub open spec fn first_positional_string(fs: Seq<FieldV>, from: int) -> Option<int>
    decreases fs.len() - from,
{
    if from < 0 || from >= fs.len() {
        None
    } else if positional_string_at(fs[from]) {
        Some(from)
    } else {
        first_positional_string(fs, from + 1)
    }
}

/// Whether some field is `key = ...`.
pub open spec fn has_key(fs: Seq<FieldV>, key: Seq<char>) -> bool {
    exists|j: int| 0 <= j < fs.len() && names_key(fs[j], key)
}

/// Number of `=` from position `from` on.
pub open spec fn eq_run(s: Seq<char>, from: int) -> nat
    decreases s.len() - from,
{
    if 0 <= from < s.len() && s[from] == '=' {
        1 + eq_run(s, from + 1)
    } else {
        0
    }
}

/// The text between a string literal's delimiters.
pub open spec fn string_content(s: Seq<char>) -> Seq<char> {
    if s.len() >= 2 && (s[0] == '"' || s[0] == '\'') {
        s.subrange(1, s.len() - 1)
    } else {
        let k = eq_run(s, 1) as int;
        if s.len() >= 2 * k + 4 {
            s.subrange(k + 2, s.len() - k - 2)
        } else {
            Seq::empty()
        }
    }
}

/// `v` in double quotes.
pub open spec fn quoted(v: Seq<char>) -> Seq<char> {
    seq!['"'] + v + seq!['"']
}

/// The value of the first `key = <string literal>` field, if any.
pub open spec fn keyed_string_value(t: (TokenV, Seq<FieldV>, TokenV), key: Seq<char>) -> Option<
    Seq<char>,
> {
    match first_keyed_string(t.1, key, 0) {
        Some(j) => Some(string_content(t.1[j].0[2].1)),
        None => None,
    }
}

/// `t` with the literal of field `j` replaced by `v` in double quotes, every
/// other token and all trivia kept.
pub open spec fn with_literal(t: (TokenV, Seq<FieldV>, TokenV), j: int, v: Seq<char>) -> (
    TokenV,
    Seq<FieldV>,
    TokenV,
) {
    let f = t.1[j];
    let old_tok = f.0[2];
    let new_tok = (old_tok.0, quoted(v), old_tok.2);
    (t.0, t.1.update(j, (f.0.update(2, new_tok), f.1)), t.2)
}

/// What `replace_keyed_string` gives.
pub open spec fn replaced(t: (TokenV, Seq<FieldV>, TokenV), key: Seq<char>, v: Seq<char>) -> Option<
    (TokenV, Seq<FieldV>, TokenV),
> {
    match first_keyed_string(t.1, key, 0) {
        Some(j) => Some(with_literal(t, j, v)),
        None => None,
    }
}

fn text_is_char(s: &String, c: char) -> (r: bool)
    ensures
        r == (s@ == seq![c]),
{
    let n = s.as_str().unicode_len();
    if n != 1 {
        return false;
    }
    let d = s.as_str().get_char(0);
    assert(d == c ==> s@ =~= seq![c]);
    d == c
}

/// Whether a token text is a string literal.
pub fn text_is_string_literal(s: &str) -> (r: bool)
    ensures
        r == is_string_literal(s@),
{
    let n = s.unicode_len();
    if n < 2 {
        return false;
    }
    let c = s.get_char(0);
    let d = s.get_char(1);
    c == '"' || c == '\'' || (c == '[' && (d == '[' || d == '='))
}

/// Whether the field is `key = ...`.
pub fn field_names_key(f: &Field, key: &str) -> (r: bool)
    ensures
        r == names_key(f@, key@),
{
    f.tokens.len() >= 2 && str_eq(f.tokens[0].text.as_str(), key) && text_is_char(
        &f.tokens[1].text,
        '=',
    )
}

fn field_is_keyed_string(f: &Field, key: &str) -> (r: bool)
    ensures
        r == keyed_string_at(f@, key@),
{
    field_names_key(f, key) && f.tokens.len() == 3 && text_is_string_literal(
        f.tokens[2].text.as_str(),
    )
}

fn field_is_positional_string(f: &Field) -> (r: bool)
    ensures
        r == positional_string_at(f@),
{
    f.tokens.len() == 1 && text_is_string_literal(f.tokens[0].text.as_str())
}

proof fn lemma_first_keyed_in_range(fs: Seq<FieldV>, key: Seq<char>, from: int)
    ensures
        first_keyed_string(fs, key, from) matches Some(j) ==> from <= j < fs.len()
            && keyed_string_at(fs[j], key),
    decreases fs.len() - from,
{
    if 0 <= from < fs.len() && !keyed_string_at(fs[from], key) {
        lemma_first_keyed_in_range(fs, key, from + 1);
    }
}

proof fn lemma_first_positional_in_range(fs: Seq<FieldV>, from: int)
    ensures
        first_positional_string(fs, from) matches Some(j) ==> from <= j < fs.len()
            && positional_string_at(fs[j]),
    decreases fs.len() - from,
{
    if 0 <= from < fs.len() && !positional_string_at(fs[from]) {
        lemma_first_positional_in_range(fs, from + 1);
    }
}

/// Index of the first `key = <string literal>` field.
pub fn find_keyed_string(fields: &Vec<Field>, key: &str) -> (r: Option<usize>)
    ensures
        r matches Some(j) ==> first_keyed_string(field_views(fields@), key@, 0) == Some(j as int),
        r is None ==> first_keyed_string(field_views(fields@), key@, 0) is None,
{
    let ghost fs = field_views(fields@);
    let mut i: usize = 0;
    while i < fields.len()
        invariant
            i <= fields@.len(),
            fs == field_views(fields@),
            first_keyed_string(fs, key@, 0) == first_keyed_string(fs, key@, i as int),
        decreases fields@.len() - i,
    {
        if field_is_keyed_string(&fields[i], key) {
            return Some(i);
        }
        i = i + 1;
    }
    None
}

fn find_positional_string(fields: &Vec<Field>) -> (r: Option<usize>)
    ensures
        r matches Some(j) ==> first_positional_string(field_views(fields@), 0) == Some(j as int),
        r is None ==> first_positional_string(field_views(fields@), 0) is None,
{
    let ghost fs = field_views(fields@);
    let mut i: usize = 0;
    while i < fields.len()
        invariant
            i <= fields@.len(),
            fs == field_views(fields@),
            first_positional_string(fs, 0) == first_positional_string(fs, i as int),
        decreases fields@.len() - i,
    {
        if field_is_positional_string(&fields[i]) {
            return Some(i);
        }
        i = i + 1;
    }
    None
}

/// The text between a string literal's delimiters.
pub fn literal_content(s: &str) -> (r: String)
    requires
        is_string_literal(s@),
    ensures
        r@ == string_content(s@),
{
    let n = s.unicode_len();
    let c = s.get_char(0);
    if c == '"' || c == '\'' {
        return s.substring_char(1, n - 1).to_owned();
    }
    let mut i: usize = 1;
    while i < n && s.get_char(i) == '='
        invariant
            n == s@.len(),
            1 <= i <= n,
            eq_run(s@, 1) == (i - 1) + eq_run(s@, i as int),
        decreases n - i,
    {
        i = i + 1;
    }
    let k = i - 1;
    if n >= 4 && k <= (n - 4) / 2 {
        s.substring_char(k + 2, n - k - 2).to_owned()
    } else {
        proof {
            reveal_strlit("");
        }
        "".to_owned()
    }
}

/// The value of the first `key = <string literal>` field.
pub fn get_keyed_string(table: &TableConstructor, key: &str) -> (r: Option<String>)
    ensures
        r matches Some(s) ==> keyed_string_value(table@, key@) == Some(s@),
        r is None ==> keyed_string_value(table@, key@) is None,
{
    match find_keyed_string(&table.fields, key) {
        Some(j) => {
            proof {
                lemma_first_keyed_in_range(field_views(table.fields@), key@, 0);
            }
            Some(literal_content(table.fields[j].tokens[2].text.as_str()))
        },
        None => None,
    }
}

/// The value of the first field that is a lone string literal: a plugin's
/// `owner/repo` identifier.
pub fn get_positional_string(table: &TableConstructor) -> (r: Option<String>)
    ensures
        r matches Some(s) ==> (first_positional_string(table@.1, 0) matches Some(j) && s@
            == string_content(table@.1[j].0[0].1)),
        r is None ==> first_positional_string(table@.1, 0) is None,
{
    match find_positional_string(&table.fields) {
        Some(j) => {
            proof {
                lemma_first_positional_in_range(field_views(table.fields@), 0);
            }
            Some(literal_content(table.fields[j].tokens[0].text.as_str()))
        },
        None => None,
    }
}

/// The plugin identifier of a `use` table: its first lone string literal.
pub fn get_plugin_name(table: &TableConstructor) -> (r: Option<String>)
    ensures
        r matches Some(s) ==> (first_positional_string(table@.1, 0) matches Some(j) && s@
            == string_content(table@.1[j].0[0].1)),
        r is None ==> first_positional_string(table@.1, 0) is None,
{
    get_positional_string(table)
}

/// The revision a `use` table is pinned to.
pub fn get_commit(table: &TableConstructor) -> (r: Option<String>)
    ensures
        r matches Some(s) ==> keyed_string_value(table@, "commit"@) == Some(s@),
        r is None ==> keyed_string_value(table@, "commit"@) is None,
{
    get_keyed_string(table, "commit")
}

/// The branch a `use` table is locked to.
pub fn get_branch(table: &TableConstructor) -> (r: Option<String>)
    ensures
        r matches Some(s) ==> keyed_string_value(table@, "branch"@) == Some(s@),
        r is None ==> keyed_string_value(table@, "branch"@) is None,
{
    get_keyed_string(table, "branch")
}

/// A double-quoted string token holding `commit_sha`, with the trivia of
/// `existing`.
pub fn update_commit_sha(commit_sha: &str, existing: &Token) -> (r: Token)
    ensures
        r@ == (existing@.0, quoted(commit_sha@), existing@.2),
{
    let mut text = String::from_str("\"");
    text.append(commit_sha);
    text.append("\"");
    proof {
        reveal_strlit("\"");
        assert(text@ =~= quoted(commit_sha@));
    }
    Token { leading: existing.leading.clone(), text, trailing: existing.trailing.clone() }
}

fn copy_tokens(ts: &Vec<Token>) -> (r: Vec<Token>)
    ensures
        token_views(r@) == token_views(ts@),
{
    let mut out: Vec<Token> = Vec::new();
    let mut i: usize = 0;
    while i < ts.len()
        invariant
            i <= ts@.len(),
            out@.len() == i,
            forall|k: int| 0 <= k < i ==> out@[k]@ == ts@[k]@,
        decreases ts@.len() - i,
    {
        out.push(copy_token(&ts[i]));
        i = i + 1;
    }
    assert(token_views(out@) =~= token_views(ts@));
    out
}

fn copy_field(f: &Field) -> (r: Field)
    ensures
        r@ == f@,
{
    let separator = match &f.separator {
        Some(t) => Some(copy_token(t)),
        None => None,
    };
    Field { tokens: copy_tokens(&f.tokens), separator }
}

/// The table with the literal of its first `key = <string literal>` field set
/// to `new_value` in double quotes; `None` when it has no such field.
pub fn replace_keyed_string(table: &TableConstructor, key: &str, new_value: &str) -> (r: Option<
    TableConstructor,
>)
    ensures
        r matches Some(t) ==> replaced(table@, key@, new_value@) == Some(t@),
        r is None ==> replaced(table@, key@, new_value@) is None,
{
    let ghost fs = field_views(table.fields@);
    let j = match find_keyed_string(&table.fields, key) {
        Some(j) => j,
        None => return None,
    };
    proof {
        lemma_first_keyed_in_range(fs, key@, 0);
    }
    let ghost want = with_literal(table@, j as int, new_value@);
    let mut fields: Vec<Field> = Vec::new();
    let mut i: usize = 0;
    while i < table.fields.len()
        invariant
            i <= table.fields@.len(),
            j < table.fields@.len(),
            fs == field_views(table.fields@),
            keyed_string_at(fs[j as int], key@),
            want == with_literal(table@, j as int, new_value@),
            fields@.len() == i,
            forall|k: int| 0 <= k < i ==> fields@[k]@ == want.1[k],
        decreases table.fields@.len() - i,
    {
        let f = &table.fields[i];
        if i == j {
            let mut tokens: Vec<Token> = Vec::new();
            tokens.push(copy_token(&f.tokens[0]));
            tokens.push(copy_token(&f.tokens[1]));
            tokens.push(update_commit_sha(new_value, &f.tokens[2]));
            let separator = match &f.separator {
                Some(t) => Some(copy_token(t)),
                None => None,
            };
            let nf = Field { tokens, separator };
            assert(token_views(nf.tokens@) =~= fs[j as int].0.update(
                2,
                (fs[j as int].0[2].0, quoted(new_value@), fs[j as int].0[2].2),
            ));
            fields.push(nf);
        } else {
            fields.push(copy_field(f));
        }
        i = i + 1;
    }
    let t = TableConstructor { open: copy_token(&table.open), fields, close: copy_token(&table.close) };
    assert(t@.1 =~= want.1);
    Some(t)
}


proof fn lemma_first_keyed_is(fs: Seq<FieldV>, key: Seq<char>, from: int, j: int)
    requires
        0 <= from <= j < fs.len(),
        keyed_string_at(fs[j], key),
        forall|k: int| from <= k < j ==> !keyed_string_at(fs[k], key),
    ensures
        first_keyed_string(fs, key, from) == Some(j),
    decreases j - from,
{
    if from < j {
        lemma_first_keyed_is(fs, key, from + 1, j);
    }
}

/// Replacing a keyed string changes one field only, and in it only the text of
/// the literal: the delimiters, every other field, the key, the `=`, the
/// separator and the literal's trivia stay as they were.
pub proof fn lemma_single_field_isolation(
    t: (TokenV, Seq<FieldV>, TokenV),
    key: Seq<char>,
    v: Seq<char>,
)
    requires
        replaced(t, key, v) is Some,
    ensures
        ({
            let t2 = replaced(t, key, v)->Some_0;
            let j = first_keyed_string(t.1, key, 0)->Some_0;
            &&& t2.0 == t.0
            &&& t2.2 == t.2
            &&& t2.1.len() == t.1.len()
            &&& 0 <= j < t.1.len()
            &&& forall|k: int| 0 <= k < t.1.len() && k != j ==> t2.1[k] == t.1[k]
            &&& t2.1[j].1 == t.1[j].1
            &&& t2.1[j].0.len() == t.1[j].0.len() == 3
            &&& t2.1[j].0[0] == t.1[j].0[0]
            &&& t2.1[j].0[1] == t.1[j].0[1]
            &&& t2.1[j].0[2].0 == t.1[j].0[2].0
            &&& t2.1[j].0[2].2 == t.1[j].0[2].2
            &&& t2.1[j].0[2].1 == quoted(v)
        }),
{
    lemma_first_keyed_in_range(t.1, key, 0);
}

/// Writing back the value a double-quoted literal already holds gives the
/// same table.
pub proof fn lemma_replace_idempotent(t: (TokenV, Seq<FieldV>, TokenV), key: Seq<char>, v: Seq<char>)
    requires
        keyed_string_value(t, key) == Some(v),
        first_keyed_string(t.1, key, 0) matches Some(j) && t.1[j].0[2].1[0] == '"'
            && t.1[j].0[2].1.last() == '"',
    ensures
        replaced(t, key, v) == Some(t),
{
    lemma_first_keyed_in_range(t.1, key, 0);
    let j = first_keyed_string(t.1, key, 0)->Some_0;
    let f = t.1[j];
    let lit = f.0[2].1;
    assert(quoted(string_content(lit)) =~= lit);
    assert(f.0.update(2, (f.0[2].0, quoted(v), f.0[2].2)) =~= f.0);
    assert(t.1.update(j, (f.0, f.1)) =~= t.1);
}

/// A table without the key is left alone: nothing is read and no table is
/// made.
pub proof fn lemma_absent_key(t: (TokenV, Seq<FieldV>, TokenV), key: Seq<char>, v: Seq<char>)
    requires
        !has_key(t.1, key),
    ensures
        replaced(t, key, v) is None,
        keyed_string_value(t, key) is None,
{
    lemma_first_keyed_in_range(t.1, key, 0);
    if let Some(j) = first_keyed_string(t.1, key, 0) {
        assert(names_key(t.1[j], key));
    }
}

/// With the key twice, the first occurrence is the one read and the one
/// replaced; the later one is kept as it was.
pub proof fn lemma_duplicate_key_first_wins(
    t: (TokenV, Seq<FieldV>, TokenV),
    key: Seq<char>,
    v: Seq<char>,
    j1: int,
    j2: int,
)
    requires
        0 <= j1 < j2 < t.1.len(),
        keyed_string_at(t.1[j1], key),
        keyed_string_at(t.1[j2], key),
        forall|k: int| 0 <= k < j1 ==> !names_key(t.1[k], key),
    ensures
        keyed_string_value(t, key) == Some(string_content(t.1[j1].0[2].1)),
        replaced(t, key, v) == Some(with_literal(t, j1, v)),
        replaced(t, key, v)->Some_0.1[j2] == t.1[j2],
        replaced(t, key, v)->Some_0.1[j1].0[2].1 == quoted(v),
{
    lemma_first_keyed_is(t.1, key, 0, j1);
}
} // verus!
