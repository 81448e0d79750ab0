//! Finding things in a document: table constructors, the plugin declaration
//! function, and the `use { ... }` calls inside it.
use vstd::prelude::*;
use crate::syntax::{copy_token, token_views, Document, Token};
use crate::table::{
    Field, FieldV, TableConstructor, TokenV, field_names_key, field_views, has_key,
    is_string_literal, names_key, text_is_string_literal,
};
use crate::text::{ends_with, str_ends_with, str_eq};

verus! {

/// How a token changes the nesting of brackets and blocks.
pub open spec fn delta(t: Seq<char>) -> int {
    if t == "("@ || t == "{"@ || t == "["@ || t == "function"@ || t == "if"@ || t == "do"@
        || t == "repeat"@ {
        1
    } else if t == ")"@ || t == "}"@ || t == "]"@ || t == "end"@ || t == "until"@ {
        -1
    } else {
        0
    }
}

/// Nesting after a token, never below zero.
pub open spec fn step(d: int, t: Seq<char>) -> int {
    if d + delta(t) < 0 {
        0
    } else {
        d + delta(t)
    }
}

/// Whether a token separates table fields.
pub open spec fn is_separator(t: Seq<char>) -> bool {
    t == ","@ || t == ";"@
}

/// The fields of a table whose body is read from `k` on, at nesting `d` relative
/// to its braces, with `cur` the tokens of the field being read and `acc` the
/// fields done; gives the fields and the index of the closing brace.
pub open spec fn scan_table(
    s: Seq<TokenV>,
    k: int,
    d: int,
    cur: Seq<TokenV>,
    acc: Seq<FieldV>,
) -> Option<(Seq<FieldV>, int)>
    decreases s.len() - k,
{
    if k < 0 || k >= s.len() {
        None
    } else if d == 0 && s[k].1 == "}"@ {
        Some((if cur.len() > 0 { acc.push((cur, None)) } else { acc }, k))
    } else if d == 0 && is_separator(s[k].1) {
        scan_table(s, k + 1, 0, Seq::empty(), acc.push((cur, Some(s[k]))))
    } else if d + delta(s[k].1) < 0 {
        None
    } else {
        scan_table(s, k + 1, d + delta(s[k].1), cur.push(s[k]), acc)
    }
}

/// The table constructor whose `{` is at `open`, with the index of its `}`.
pub open spec fn table_spec(s: Seq<TokenV>, open: int) -> Option<
    ((TokenV, Seq<FieldV>, TokenV), int),
> {
    if 0 <= open < s.len() && s[open].1 == "{"@ {
        match scan_table(s, open + 1, 0, Seq::empty(), Seq::empty()) {
            Some((fs, c)) => Some(((s[open], fs, s[c]), c)),
            None => None,
        }
    } else {
        None
    }
}

/// How a token changes nesting.
pub fn nest_delta(t: &str) -> (r: i8)
    ensures
        r == delta(t@),
{
    if str_eq(t, "(") || str_eq(t, "{") || str_eq(t, "[") || str_eq(t, "function") || str_eq(
        t,
        "if",
    ) || str_eq(t, "do") || str_eq(t, "repeat") {
        1
    } else if str_eq(t, ")") || str_eq(t, "}") || str_eq(t, "]") || str_eq(t, "end") || str_eq(
        t,
        "until",
    ) {
        -1
    } else {
        0
    }
}

/// Reads the table constructor whose `{` is at `open`; gives it with the index
/// of its `}`.
pub fn table_at(tokens: &Vec<Token>, open: usize) -> (r: Option<(TableConstructor, usize)>)
    ensures
        r matches Some((t, c)) ==> table_spec(token_views(tokens@), open as int) == Some(
            (t@, c as int),
        ),
        r is None ==> table_spec(token_views(tokens@), open as int) is None,
{
    let ghost s = token_views(tokens@);
    if open >= tokens.len() || !str_eq(tokens[open].text.as_str(), "{") {
        return None;
    }
    let mut fields: Vec<Field> = Vec::new();
    let mut cur: Vec<Token> = Vec::new();
    let mut d: usize = 0;
    let mut k: usize = open + 1;
    assert(s[open as int].1 == "{"@);
    assert(token_views(cur@) =~= Seq::<TokenV>::empty());
    assert(field_views(fields@) =~= Seq::<FieldV>::empty());
    while k < tokens.len()
        invariant
            s == token_views(tokens@),
            open < k <= tokens@.len(),
            s[open as int].1 == "{"@,
            d <= k,
            scan_table(s, open + 1, 0, Seq::empty(), Seq::empty()) == scan_table(
                s,
                k as int,
                d as int,
                token_views(cur@),
                field_views(fields@),
            ),
        decreases tokens@.len() - k,
    {
        let t = tokens[k].text.as_str();
        if d == 0 && str_eq(t, "}") {
            let ghost fs_done = if cur@.len() > 0 {
                field_views(fields@).push((token_views(cur@), None))
            } else {
                field_views(fields@)
            };
            assert(scan_table(s, k as int, d as int, token_views(cur@), field_views(fields@)) == Some((fs_done, k as int)));
            if cur.len() > 0 {
                let f = Field { tokens: cur, separator: None };
                proof {
                    assert(field_views(fields@.push(f)) =~= field_views(fields@).push(f@));
                }
                fields.push(f);
            }
            let table = TableConstructor {
                open: copy_token(&tokens[open]),
                fields,
                close: copy_token(&tokens[k]),
            };
            assert(table@.1 == fs_done);
            assert(s[open as int].1 == "{"@);
            assert(table@.0 == s[open as int]);
            assert(table@.2 == s[k as int]);
            return Some((table, k));
        } else if d == 0 && (str_eq(t, ",") || str_eq(t, ";")) {
            let f = Field { tokens: cur, separator: Some(copy_token(&tokens[k])) };
            proof {
                assert(field_views(fields@.push(f)) =~= field_views(fields@).push(f@));
            }
            fields.push(f);
            cur = Vec::new();
            assert(token_views(cur@) =~= Seq::<TokenV>::empty());
        } else {
            let dl = nest_delta(t);
            if dl < 0 && d == 0 {
                return None;
            }
            let ghost old_cur = token_views(cur@);
            cur.push(copy_token(&tokens[k]));
            assert(token_views(cur@) =~= old_cur.push(s[k as int]));
            if dl > 0 {
                d = d + 1;
            } else if dl < 0 {
                d = d - 1;
            }
        }
        k = k + 1;
    }
    None
}


/// Whether a token is a Lua keyword.
pub open spec fn is_keyword(t: Seq<char>) -> bool {
    t == "and"@ || t == "break"@ || t == "do"@ || t == "else"@ || t == "elseif"@ || t == "end"@
        || t == "false"@ || t == "for"@ || t == "function"@ || t == "goto"@ || t == "if"@ || t
        == "in"@ || t == "local"@ || t == "nil"@ || t == "not"@ || t == "or"@ || t == "repeat"@
        || t == "return"@ || t == "then"@ || t == "true"@ || t == "until"@ || t == "while"@
}

/// Whether a token is a name: it starts with a letter or `_` and is no keyword.
pub open spec fn is_name(t: Seq<char>) -> bool {
    t.len() > 0 && (t[0] == '_' || ('a' <= t[0] && t[0] <= 'z') || ('A' <= t[0] && t[0] <= 'Z'))
        && !is_keyword(t)
}

/// Whether a token is a numeral.
pub open spec fn is_number(t: Seq<char>) -> bool {
    t.len() > 0 && (('0' <= t[0] && t[0] <= '9') || (t[0] == '.' && t.len() > 1 && '0' <= t[1]
        && t[1] <= '9'))
}

/// Whether a token can be the last one of a statement, so that a name after
/// it starts a new statement.
pub open spec fn ends_statement(t: Seq<char>) -> bool {
    is_name(t) || is_string_literal(t) || is_number(t) || t == ")"@ || t == "]"@ || t == "}"@
        || t == ";"@ || t == "end"@ || t == "true"@ || t == "false"@ || t == "nil"@ || t
        == "..."@ || t == "break"@
}

/// Whether `local function <name>` stands at `k` with a name ending in `suffix`.
pub open spec fn is_decl_at(s: Seq<TokenV>, k: int, suffix: Seq<char>) -> bool {
    0 <= k && k + 2 < s.len() && s[k].1 == "local"@ && s[k + 1].1 == "function"@ && ends_with(
        s[k + 2].1,
        suffix,
    )
}

/// The first declaration at nesting zero, scanning from `k` at nesting `d`.
pub open spec fn decl_scan(s: Seq<TokenV>, k: int, d: int, suffix: Seq<char>) -> Option<int>
    decreases s.len() - k,
{
    if k < 0 || k >= s.len() {
        None
    } else if d == 0 && is_decl_at(s, k, suffix) {
        Some(k)
    } else {
        decl_scan(s, k + 1, step(d, s[k].1), suffix)
    }
}

/// Where the table argument of a call statement `<name> { ... }` or
/// `<name>({ ... })` starts, when such a call whose name ends in `use` begins
/// at `k`.
pub open spec fn use_site_open(s: Seq<TokenV>, k: int) -> Option<int> {
    if 1 <= k && k + 1 < s.len() && ends_statement(s[k - 1].1) && is_name(s[k].1) && ends_with(
        s[k].1,
        "use"@,
    ) {
        if s[k + 1].1 == "{"@ {
            Some(k + 1)
        } else if k + 2 < s.len() && s[k + 1].1 == "("@ && s[k + 2].1 == "{"@ {
            Some(k + 2)
        } else {
            None
        }
    } else {
        None
    }
}

/// The table argument of the `use` call at `k`, with the index of its `}`.
pub open spec fn call_table(s: Seq<TokenV>, k: int) -> Option<
    ((TokenV, Seq<FieldV>, TokenV), int),
> {
    match use_site_open(s, k) {
        Some(o) => match table_spec(s, o) {
            Some((t, c)) => if o == k + 1 || (c + 1 < s.len() && s[c + 1].1 == ")"@) {
                Some((t, c))
            } else {
                None
            },
            None => None,
        },
        None => None,
    }
}

/// Whether a `use` call whose table has a `commit` key begins at `k`.
pub open spec fn is_candidate(s: Seq<TokenV>, k: int) -> bool {
    call_table(s, k) matches Some((t, c)) && has_key(t.1, "commit"@)
}

/// The candidate calls among the statements of a function body read from `k`
/// on at nesting `d`; the body ends where nesting drops to zero.
pub open spec fn calls_scan(s: Seq<TokenV>, k: int, d: int) -> Seq<int>
    decreases s.len() - k,
{
    if k < 0 || k >= s.len() || d <= 0 {
        Seq::empty()
    } else {
        let rest = calls_scan(s, k + 1, step(d, s[k].1));
        if d == 1 && is_candidate(s, k) {
            seq![k] + rest
        } else {
            rest
        }
    }
}

/// A `use` call of the plugin declaration function with its table argument.
#[derive(Debug, Clone)]
pub struct UseCall {
    /// Index of the called name's token in the document.
    pub name: usize,
    /// Index of the table's `{`.
    pub table_open: usize,
    /// Index of the table's `}`.
    pub table_close: usize,
    /// The table argument as read from the document.
    pub table: TableConstructor,
}

/// Whether `t` is a Lua keyword.
pub fn token_is_keyword(t: &str) -> (r: bool)
    ensures
        r == is_keyword(t@),
{
    str_eq(t, "and") || str_eq(t, "break") || str_eq(t, "do") || str_eq(t, "else") || str_eq(
        t,
        "elseif",
    ) || str_eq(t, "end") || str_eq(t, "false") || str_eq(t, "for") || str_eq(t, "function")
        || str_eq(t, "goto") || str_eq(t, "if") || str_eq(t, "in") || str_eq(t, "local")
        || str_eq(t, "nil") || str_eq(t, "not") || str_eq(t, "or") || str_eq(t, "repeat")
        || str_eq(t, "return") || str_eq(t, "then") || str_eq(t, "true") || str_eq(t, "until")
        || str_eq(t, "while")
}

/// Whether `t` is a name.
pub fn token_is_name(t: &str) -> (r: bool)
    ensures
        r == is_name(t@),
{
    if t.unicode_len() == 0 {
        return false;
    }
    let c = t.get_char(0);
    (c == '_' || ('a' <= c && c <= 'z') || ('A' <= c && c <= 'Z')) && !token_is_keyword(t)
}

fn token_is_number(t: &str) -> (r: bool)
    ensures
        r == is_number(t@),
{
    let n = t.unicode_len();
    if n == 0 {
        return false;
    }
    let c = t.get_char(0);
    if '0' <= c && c <= '9' {
        return true;
    }
    c == '.' && n > 1 && '0' <= t.get_char(1) && t.get_char(1) <= '9'
}

fn token_ends_statement(t: &str) -> (r: bool)
    ensures
        r == ends_statement(t@),
{
    token_is_name(t) || text_is_string_literal(t) || token_is_number(t) || str_eq(t, ")")
        || str_eq(t, "]") || str_eq(t, "}") || str_eq(t, ";") || str_eq(t, "end") || str_eq(
        t,
        "true",
    ) || str_eq(t, "false") || str_eq(t, "nil") || str_eq(t, "...") || str_eq(t, "break")
}

fn next_depth(d: usize, t: &str) -> (r: usize)
    requires
        d < usize::MAX,
    ensures
        r == step(d as int, t@),
        r <= d + 1,
{
    let dl = nest_delta(t);
    if dl > 0 {
        d + 1
    } else if dl < 0 {
        if d == 0 {
            0
        } else {
            d - 1
        }
    } else {
        d
    }
}

/// The first top-level `local function` whose name ends with `name_suffix`:
/// the index of its `local`.
pub fn find_declaration(doc: &Document, name_suffix: &str) -> (r: Option<usize>)
    ensures
        r matches Some(k) ==> decl_scan(token_views(doc.tokens@), 0, 0, name_suffix@) == Some(
            k as int,
        ),
        r is None ==> decl_scan(token_views(doc.tokens@), 0, 0, name_suffix@) is None,
{
    let ghost s = token_views(doc.tokens@);
    let tokens = &doc.tokens;
    let mut d: usize = 0;
    let mut k: usize = 0;
    while k < tokens.len()
        invariant
            s == token_views(tokens@),
            s == token_views(doc.tokens@),
            k <= tokens@.len(),
            d <= k,
            decl_scan(s, 0, 0, name_suffix@) == decl_scan(s, k as int, d as int, name_suffix@),
        decreases tokens@.len() - k,
    {
        if d == 0 && tokens.len() - k > 2 && str_eq(tokens[k].text.as_str(), "local") && str_eq(
            tokens[k + 1].text.as_str(),
            "function",
        ) && str_ends_with(tokens[k + 2].text.as_str(), name_suffix) {
            assert(is_decl_at(s, k as int, name_suffix@));
            assert(decl_scan(s, k as int, d as int, name_suffix@) == Some(k as int));
            return Some(k);
        }
        d = next_depth(d, tokens[k].text.as_str());
        k = k + 1;
    }
    None
}

/// The plugin declaration function: the first top-level `local function`
/// whose name ends with `define_plugins`.
pub fn find_define_plugins_function(doc: &Document) -> (r: Option<usize>)
    ensures
        r matches Some(k) ==> decl_scan(token_views(doc.tokens@), 0, 0, "define_plugins"@)
            == Some(k as int),
        r is None ==> decl_scan(token_views(doc.tokens@), 0, 0, "define_plugins"@) is None,
{
    find_declaration(doc, "define_plugins")
}

/// Whether some field of the table is `key = ...`.
pub fn table_has_key(table: &TableConstructor, key: &str) -> (r: bool)
    ensures
        r == has_key(table@.1, key@),
{
    let mut i: usize = 0;
    while i < table.fields.len()
        invariant
            i <= table.fields@.len(),
            forall|j: int| 0 <= j < i ==> !names_key(table@.1[j], key@),
        decreases table.fields@.len() - i,
    {
        if field_names_key(&table.fields[i], key) {
            assert(table@.1[i as int] == table.fields@[i as int]@);
            assert(names_key(table@.1[i as int], key@));
            return true;
        }
        i = i + 1;
    }
    false
}

/// Whether the call's table has a `commit` key.
pub fn does_have_commit_key(call: &UseCall) -> (r: bool)
    ensures
        r == has_key(call.table@.1, "commit"@),
{
    table_has_key(&call.table, "commit")
}

/// The table argument of a `use` call.
pub fn get_table_ctor_for_use_call(call: &UseCall) -> (r: &TableConstructor)
    ensures
        r@ == call.table@,
{
    &call.table
}

fn use_call_at(tokens: &Vec<Token>, k: usize) -> (r: Option<UseCall>)
    ensures
        r matches Some(c) ==> c.name == k && is_candidate(token_views(tokens@), k as int)
            && call_table(token_views(tokens@), k as int) == Some((c.table@, c.table_close as int))
            && use_site_open(token_views(tokens@), k as int) == Some(c.table_open as int),
        r is None ==> !is_candidate(token_views(tokens@), k as int),
{
    let ghost s = token_views(tokens@);
    let n = tokens.len();
    if k == 0 || k >= n || n - k < 2 {
        return None;
    }
    let name = tokens[k].text.as_str();
    if !(token_ends_statement(tokens[k - 1].text.as_str()) && token_is_name(name)
        && str_ends_with(name, "use")) {
        return None;
    }
    let open = if str_eq(tokens[k + 1].text.as_str(), "{") {
        k + 1
    } else if k + 2 < n && str_eq(tokens[k + 1].text.as_str(), "(") && str_eq(
        tokens[k + 2].text.as_str(),
        "{",
    ) {
        k + 2
    } else {
        return None;
    };
    assert(use_site_open(s, k as int) == Some(open as int));
    match table_at(tokens, open) {
        Some((table, close)) => {
            if open == k + 2 && !(close < n - 1 && str_eq(tokens[close + 1].text.as_str(), ")")) {
                return None;
            }
            if !table_has_key(&table, "commit") {
                return None;
            }
            Some(UseCall { name: k, table_open: open, table_close: close, table })
        },
        None => None,
    }
}

/// The `use` calls among the direct statements of the function declared at
/// `decl` whose table has a `commit` key, in order.
pub fn parse_packer_use_calls(doc: &Document, decl: usize) -> (r: Vec<UseCall>)
    ensures
        r@.len() == calls_scan(token_views(doc.tokens@), decl + 2, 1).len(),
        forall|m: int|
            0 <= m < r@.len() ==> {
                let k = calls_scan(token_views(doc.tokens@), decl + 2, 1)[m];
                &&& (#[trigger] r@[m]).name == k
                &&& call_table(token_views(doc.tokens@), k) == Some(
                    (r@[m].table@, r@[m].table_close as int),
                )
                &&& use_site_open(token_views(doc.tokens@), k) == Some(r@[m].table_open as int)
            },
{
    let ghost s = token_views(doc.tokens@);
    let tokens = &doc.tokens;
    let mut out: Vec<UseCall> = Vec::new();
    let ghost names: Seq<int> = Seq::empty();
    if decl >= tokens.len() || tokens.len() - decl <= 2 {
        return out;
    }
    let mut d: usize = 1;
    let mut k: usize = decl + 2;
    while k < tokens.len() && d > 0
        invariant
            s == token_views(tokens@),
            decl + 2 <= k <= tokens@.len(),
            d <= k,
            names.len() == out@.len(),
            names + calls_scan(s, k as int, d as int) == calls_scan(s, decl + 2, 1),
            forall|m: int|
                0 <= m < out@.len() ==> {
                    let k = names[m];
                    &&& (#[trigger] out@[m]).name == k
                    &&& call_table(s, k) == Some((out@[m].table@, out@[m].table_close as int))
                    &&& use_site_open(s, k) == Some(out@[m].table_open as int)
                },
        decreases tokens@.len() - k,
    {
        let ghost rest = calls_scan(s, k + 1, step(d as int, s[k as int].1));
        if d == 1 {
            match use_call_at(tokens, k) {
                Some(c) => {
                    assert(names.push(k as int) + rest =~= names + (seq![k as int] + rest));
                    out.push(c);
                    proof {
                        names = names.push(k as int);
                    }
                },
                None => {},
            }
        }
        d = next_depth(d, tokens[k].text.as_str());
        k = k + 1;
    }
    assert(calls_scan(s, k as int, d as int) == Seq::<int>::empty());
    assert(names + Seq::<int>::empty() =~= names);
    out
}
} // verus!
