//! Putting edited tables back into a document.
use vstd::prelude::*;
use crate::locate::{call_table, scan_table, table_spec, use_site_open, UseCall};
use crate::syntax::{copy_token, render_tokens, token_text, token_views, Document, Token};
use crate::table::{
    first_keyed_string, replace_keyed_string, replaced, with_literal, FieldV, TableConstructor,
    TokenV, field_views,
};
use crate::text::str_eq;

verus! {

/// The tokens of a field sequence in order, separators included.
pub open spec fn fields_flat(fs: Seq<FieldV>) -> Seq<TokenV>
    decreases fs.len(),
{
    if fs.len() == 0 {
        Seq::empty()
    } else {
        let f = fs.last();
        fields_flat(fs.drop_last()) + f.0 + match f.1 {
            Some(t) => seq![t],
            None => Seq::empty(),
        }
    }
}

/// The tokens of a table constructor in order.
pub open spec fn table_tokens(t: (TokenV, Seq<FieldV>, TokenV)) -> Seq<TokenV> {
    seq![t.0] + fields_flat(t.1) + seq![t.2]
}

/// `s` with the tokens from `open` to `close` replaced by `mid`.
pub open spec fn splice(s: Seq<TokenV>, open: int, close: int, mid: Seq<TokenV>) -> Seq<TokenV> {
    s.subrange(0, open) + mid + s.subrange(close + 1, s.len() as int)
}

/// The document after the updates of the first `calls.len()` calls: each call
/// with a chosen revision whose table has a `commit` string gets its table
/// replaced by the edited one.
pub open spec fn apply_spec(
    s: Seq<TokenV>,
    calls: Seq<UseCall>,
    choices: Seq<Option<String>>,
) -> Seq<TokenV>
    decreases calls.len(),
{
    if calls.len() == 0 || choices.len() < calls.len() {
        s
    } else {
        let prev = apply_spec(s, calls.drop_last(), choices.subrange(0, calls.len() - 1));
        let c = calls.last();
        match choices[calls.len() - 1] {
            Some(v) => match replaced(c.table@, "commit"@, v@) {
                Some(t) => if c.table_open <= c.table_close < prev.len() {
                    splice(prev, c.table_open as int, c.table_close as int, table_tokens(t))
                } else {
                    prev
                },
                None => prev,
            },
            None => prev,
        }
    }
}

/// The table with its `commit` literal set to `new_commit`.
pub fn replace_table_constructor(table: &TableConstructor, new_commit: &str) -> (r: Option<
    TableConstructor,
>)
    ensures
        r matches Some(t) ==> replaced(table@, "commit"@, new_commit@) == Some(t@),
        r is None ==> replaced(table@, "commit"@, new_commit@) is None,
{
    replace_keyed_string(table, "commit", new_commit)
}

fn push_tokens(out: &mut Vec<Token>, ts: &Vec<Token>)
    ensures
        token_views(final(out)@) == token_views(old(out)@) + token_views(ts@),
{
    let ghost start = token_views(out@);
    let mut i: usize = 0;
    while i < ts.len()
        invariant
            i <= ts@.len(),
            out@.len() == start.len() + i,
            forall|k: int| 0 <= k < start.len() ==> out@[k]@ == start[k],
            forall|k: int| 0 <= k < i ==> out@[start.len() + k]@ == ts@[k]@,
        decreases ts@.len() - i,
    {
        out.push(copy_token(&ts[i]));
        i = i + 1;
    }
    assert(token_views(out@) =~= start + token_views(ts@));
}

/// The tokens of a table constructor in order.
pub fn table_token_seq(t: &TableConstructor) -> (r: Vec<Token>)
    ensures
        token_views(r@) == table_tokens(t@),
{
    let mut out: Vec<Token> = Vec::new();
    out.push(copy_token(&t.open));
    assert(token_views(out@) =~= seq![t@.0]);
    let mut i: usize = 0;
    while i < t.fields.len()
        invariant
            i <= t.fields@.len(),
            token_views(out@) =~= seq![t@.0] + fields_flat(t@.1.subrange(0, i as int)),
        decreases t.fields@.len() - i,
    {
        let ghost before = token_views(out@);
        let f = &t.fields[i];
        push_tokens(&mut out, &f.tokens);
        let ghost mid = token_views(out@);
        match &f.separator {
            Some(sep) => {
                out.push(copy_token(sep));
                assert(token_views(out@) =~= mid.push(sep@));
            },
            None => {},
        }
        assert(t@.1.subrange(0, i + 1).drop_last() =~= t@.1.subrange(0, i as int));
        assert(t@.1[i as int] == f@);
        i = i + 1;
    }
    assert(t@.1.subrange(0, i as int) =~= t@.1);
    let ghost before = token_views(out@);
    out.push(copy_token(&t.close));
    assert(token_views(out@) =~= before.push(t@.2));
    out
}

fn splice_tokens(tokens: &Vec<Token>, open: usize, close: usize, mid: &Vec<Token>) -> (r: Vec<
    Token,
>)
    requires
        open <= close < tokens@.len(),
    ensures
        token_views(r@) == splice(
            token_views(tokens@),
            open as int,
            close as int,
            token_views(mid@),
        ),
{
    let mut out: Vec<Token> = Vec::new();
    let mut i: usize = 0;
    while i < open
        invariant
            i <= open <= close < tokens@.len(),
            out@.len() == i,
            forall|k: int| 0 <= k < i ==> out@[k]@ == tokens@[k]@,
        decreases open - i,
    {
        out.push(copy_token(&tokens[i]));
        i = i + 1;
    }
    assert(token_views(out@) =~= token_views(tokens@).subrange(0, open as int));
    push_tokens(&mut out, mid);
    let ghost base = token_views(out@);
    let mut k: usize = close;
    while k < tokens.len() - 1
        invariant
            close <= k < tokens@.len(),
            out@.len() == base.len() + (k - close),
            forall|j: int| 0 <= j < base.len() ==> out@[j]@ == base[j],
            forall|j: int| close < j <= k ==> out@[base.len() + (j - close - 1)]@ == tokens@[j]@,
        decreases tokens@.len() - k,
    {
        out.push(copy_token(&tokens[k + 1]));
        k = k + 1;
    }
    assert(token_views(out@) =~= base + token_views(tokens@).subrange(close + 1, tokens@.len() as int));
    out
}

/// Sets the `commit` literal of each call whose choice holds a revision, and
/// leaves every other token of the document as it was.
pub fn apply_updates(doc: &Document, calls: &Vec<UseCall>, choices: &Vec<Option<String>>) -> (r:
    Document)
    ensures
        token_views(r.tokens@) == apply_spec(token_views(doc.tokens@), calls@, choices@),
{
    let mut tokens: Vec<Token> = Vec::new();
    push_tokens(&mut tokens, &doc.tokens);
    assert(token_views(tokens@) =~= token_views(doc.tokens@));
    if choices.len() < calls.len() {
        return Document { tokens };
    }
    let mut m: usize = 0;
    while m < calls.len()
        invariant
            m <= calls@.len() <= choices@.len(),
            token_views(tokens@) == apply_spec(
                token_views(doc.tokens@),
                calls@.subrange(0, m as int),
                choices@.subrange(0, m as int),
            ),
        decreases calls@.len() - m,
    {
        let ghost prev = token_views(tokens@);
        let c = &calls[m];
        assert(calls@.subrange(0, m + 1).drop_last() =~= calls@.subrange(0, m as int));
        assert(choices@.subrange(0, m + 1).subrange(0, m as int) =~= choices@.subrange(0, m as int));
        match &choices[m] {
            Some(v) => match replace_table_constructor(&c.table, v.as_str()) {
                Some(t) => {
                    if c.table_open <= c.table_close && c.table_close < tokens.len() {
                        let mid = table_token_seq(&t);
                        tokens = splice_tokens(&tokens, c.table_open, c.table_close, &mid);
                    }
                },
                None => {},
            },
            None => {},
        }
        m = m + 1;
    }
    assert(calls@.subrange(0, m as int) =~= calls@);
    assert(choices@.subrange(0, m as int) =~= choices@.subrange(0, calls@.len() as int));
    proof {
        lemma_apply_prefix(token_views(doc.tokens@), calls@, choices@);
    }
    Document { tokens }
}

/// Whether call `m` was given a revision that cannot be written because its
/// table has no `commit` string.
pub open spec fn update_skipped(calls: Seq<UseCall>, choices: Seq<Option<String>>, m: int) -> bool {
    0 <= m < calls.len() && m < choices.len() && (choices[m] matches Some(v) && replaced(
        calls[m].table@,
        "commit"@,
        v@,
    ) is None)
}

/// The calls before `n` whose chosen revision cannot be written, in order.
pub open spec fn skipped_upto(calls: Seq<UseCall>, choices: Seq<Option<String>>, n: int) -> Seq<
    int,
>
    decreases n,
{
    if n <= 0 {
        Seq::empty()
    } else if update_skipped(calls, choices, n - 1) {
        skipped_upto(calls, choices, n - 1).push(n - 1)
    } else {
        skipped_upto(calls, choices, n - 1)
    }
}

/// Indices of the calls that were given a revision which `apply_updates`
/// leaves unwritten because their table has no `commit` string: the
/// per-plugin warnings of an update run.
pub fn skipped_updates(calls: &Vec<UseCall>, choices: &Vec<Option<String>>) -> (r: Vec<usize>)
    ensures
        r@.len() == skipped_upto(calls@, choices@, calls@.len() as int).len(),
        forall|k: int|
            0 <= k < r@.len() ==> #[trigger] r@[k] as int == skipped_upto(
                calls@,
                choices@,
                calls@.len() as int,
            )[k],
{
    let mut out: Vec<usize> = Vec::new();
    let mut m: usize = 0;
    while m < calls.len()
        invariant
            m <= calls@.len(),
            out@.len() == skipped_upto(calls@, choices@, m as int).len(),
            forall|k: int|
                0 <= k < out@.len() ==> #[trigger] out@[k] as int == skipped_upto(
                    calls@,
                    choices@,
                    m as int,
                )[k],
        decreases calls@.len() - m,
    {
        if m < choices.len() {
            match &choices[m] {
                Some(v) => {
                    if replace_table_constructor(&calls[m].table, v.as_str()).is_none() {
                        assert(update_skipped(calls@, choices@, m as int));
                        out.push(m);
                    }
                },
                None => {},
            }
        }
        m = m + 1;
    }
    out
}

proof fn lemma_apply_prefix(s: Seq<TokenV>, calls: Seq<UseCall>, choices: Seq<Option<String>>)
    requires
        calls.len() <= choices.len(),
    ensures
        apply_spec(s, calls, choices) == apply_spec(s, calls, choices.subrange(0, calls.len() as int)),
    decreases calls.len(),
{
    if calls.len() > 0 {
        assert(choices.subrange(0, calls.len() as int).subrange(0, calls.len() - 1)
            =~= choices.subrange(0, calls.len() - 1));
    }
}

/// When no call gets a revision that can be written (no revision was chosen,
/// or its table has no `commit` string; in particular when there are no
/// calls at all) the document comes back token for token.
pub proof fn lemma_no_choice_no_change(
    s: Seq<TokenV>,
    calls: Seq<UseCall>,
    choices: Seq<Option<String>>,
)
    requires
        forall|m: int|
            0 <= m < calls.len() && m < choices.len() ==> (#[trigger] choices[m] matches Some(v)
                ==> replaced(calls[m].table@, "commit"@, v@) is None),
    ensures
        apply_spec(s, calls, choices) == s,
    decreases calls.len(),
{
    if calls.len() > 0 && choices.len() >= calls.len() {
        let n = calls.len() - 1;
        let ch = choices.subrange(0, n);
        assert forall|m: int| 0 <= m < calls.drop_last().len() && m < ch.len() implies (
        #[trigger] ch[m] matches Some(v) ==> replaced(calls.drop_last()[m].table@, "commit"@, v@)
            is None) by {
            assert(ch[m] == choices[m]);
        }
        lemma_no_choice_no_change(s, calls.drop_last(), ch);
        assert(choices[n] == choices[calls.len() - 1]);
    }
}

/// Whether two tokens are equal in text and trivia.
pub fn tokens_equal(a: &Token, b: &Token) -> (r: bool)
    ensures
        r == (a@ == b@),
{
    str_eq(a.leading.as_str(), b.leading.as_str()) && str_eq(a.text.as_str(), b.text.as_str())
        && str_eq(a.trailing.as_str(), b.trailing.as_str())
}

/// Whether two tables are equal token for token.
pub fn tables_equal(a: &TableConstructor, b: &TableConstructor) -> (r: bool)
    ensures
        r == (a@ == b@),
{
    if !tokens_equal(&a.open, &b.open) || !tokens_equal(&a.close, &b.close) || a.fields.len()
        != b.fields.len() {
        assert(a@.1.len() == a.fields@.len() && b@.1.len() == b.fields@.len());
        return false;
    }
    let mut i: usize = 0;
    while i < a.fields.len()
        invariant
            i <= a.fields@.len() == b.fields@.len(),
            forall|k: int| 0 <= k < i ==> a@.1[k] == b@.1[k],
        decreases a.fields@.len() - i,
    {
        let fa = &a.fields[i];
        let fb = &b.fields[i];
        assert(a@.1[i as int] == fa@ && b@.1[i as int] == fb@);
        if fa.tokens.len() != fb.tokens.len() {
            assert(fa@.0.len() != fb@.0.len());
            return false;
        }
        let mut j: usize = 0;
        while j < fa.tokens.len()
            invariant
                j <= fa.tokens@.len() == fb.tokens@.len(),
                forall|k: int| 0 <= k < j ==> fa@.0[k] == fb@.0[k],
                a@.1[i as int] == fa@,
                b@.1[i as int] == fb@,
            decreases fa.tokens@.len() - j,
        {
            if !tokens_equal(&fa.tokens[j], &fb.tokens[j]) {
                assert(fa@.0[j as int] != fb@.0[j as int]);
                assert(a@.1[i as int] != b@.1[i as int]);
                return false;
            }
            j = j + 1;
        }
        assert(fa@.0 =~= fb@.0);
        let same_sep = match (&fa.separator, &fb.separator) {
            (Some(x), Some(y)) => tokens_equal(x, y),
            (None, None) => true,
            _ => false,
        };
        if !same_sep {
            assert(fa@.1 != fb@.1);
            return false;
        }
        i = i + 1;
    }
    assert(a@.1 =~= b@.1);
    true
}

/// Index of the first call whose table equals `table` token for token.
pub fn get_function_call_by_table_ctor(use_calls: &Vec<UseCall>, table: &TableConstructor) -> (r:
    Option<usize>)
    ensures
        r matches Some(m) ==> m < use_calls@.len() && use_calls@[m as int].table@ == table@
            && forall|k: int| 0 <= k < m ==> use_calls@[k].table@ != table@,
        r is None ==> forall|k: int| 0 <= k < use_calls@.len() ==> use_calls@[k].table@ != table@,
{
    let mut i: usize = 0;
    while i < use_calls.len()
        invariant
            i <= use_calls@.len(),
            forall|k: int| 0 <= k < i ==> use_calls@[k].table@ != table@,
        decreases use_calls@.len() - i,
    {
        if tables_equal(&use_calls[i].table, table) {
            return Some(i);
        }
        i = i + 1;
    }
    None
}


proof fn lemma_fields_flat_push(fs: Seq<FieldV>, f: FieldV)
    ensures
        fields_flat(fs.push(f)) == fields_flat(fs) + f.0 + match f.1 {
            Some(t) => seq![t],
            None => Seq::<TokenV>::empty(),
        },
{
    assert(fs.push(f).drop_last() =~= fs);
}

proof fn lemma_scan_covers(
    s: Seq<TokenV>,
    k: int,
    d: int,
    cur: Seq<TokenV>,
    acc: Seq<FieldV>,
)
    requires
        scan_table(s, k, d, cur, acc) is Some,
    ensures
        ({
            let (fs, c) = scan_table(s, k, d, cur, acc)->Some_0;
            &&& k <= c < s.len()
            &&& fields_flat(fs) == fields_flat(acc) + cur + s.subrange(k, c)
        }),
    decreases s.len() - k,
{
    let (fs, c) = scan_table(s, k, d, cur, acc)->Some_0;
    if d == 0 && s[k].1 == "}"@ {
        if cur.len() > 0 {
            lemma_fields_flat_push(acc, (cur, None));
        }
        assert(s.subrange(k, c) =~= Seq::<TokenV>::empty());
        assert(fields_flat(acc) + cur =~= fields_flat(acc) + cur + s.subrange(k, c));
    } else if d == 0 && crate::locate::is_separator(s[k].1) {
        let acc2 = acc.push((cur, Some(s[k])));
        lemma_scan_covers(s, k + 1, 0, Seq::empty(), acc2);
        lemma_fields_flat_push(acc, (cur, Some(s[k])));
        assert(s.subrange(k, c) =~= seq![s[k]] + s.subrange(k + 1, c));
        assert(fields_flat(fs) =~= fields_flat(acc) + cur + s.subrange(k, c));
    } else {
        let d2 = d + crate::locate::delta(s[k].1);
        lemma_scan_covers(s, k + 1, d2, cur.push(s[k]), acc);
        assert(s.subrange(k, c) =~= seq![s[k]] + s.subrange(k + 1, c));
        assert(fields_flat(fs) =~= fields_flat(acc) + cur + s.subrange(k, c));
    }
}

/// A table read from a document holds exactly the document's tokens from its
/// `{` to its `}`, in order.
pub proof fn lemma_table_covers_tokens(s: Seq<TokenV>, open: int)
    requires
        table_spec(s, open) is Some,
    ensures
        ({
            let (t, c) = table_spec(s, open)->Some_0;
            &&& open < c < s.len()
            &&& table_tokens(t) == s.subrange(open, c + 1)
        }),
{
    lemma_scan_covers(s, open + 1, 0, Seq::empty(), Seq::empty());
    let (t, c) = table_spec(s, open)->Some_0;
    assert(fields_flat(Seq::<FieldV>::empty()) =~= Seq::<TokenV>::empty());
    assert(table_tokens(t) =~= s.subrange(open, c + 1));
}

proof fn lemma_fields_flat_len_update(fs: Seq<FieldV>, j: int, f: FieldV)
    requires
        0 <= j < fs.len(),
        f.0.len() == fs[j].0.len(),
        f.1 is Some == fs[j].1 is Some,
    ensures
        fields_flat(fs.update(j, f)).len() == fields_flat(fs).len(),
    decreases fs.len(),
{
    let g = fs.update(j, f);
    if j == fs.len() - 1 {
        assert(g.drop_last() =~= fs.drop_last());
    } else {
        assert(g.drop_last() =~= fs.drop_last().update(j, f));
        lemma_fields_flat_len_update(fs.drop_last(), j, f);
    }
}

/// Updating one call that was found in the document replaces the tokens of
/// its table by those of the edited table and touches no other token; the
/// document keeps its length.
pub proof fn lemma_update_is_surgical(s: Seq<TokenV>, c: UseCall, v: String)
    requires
        call_table(s, c.name as int) == Some((c.table@, c.table_close as int)),
        use_site_open(s, c.name as int) == Some(c.table_open as int),
        replaced(c.table@, "commit"@, v@) is Some,
    ensures
        ({
            let r = apply_spec(s, seq![c], seq![Some(v)]);
            let o = c.table_open as int;
            let e = c.table_close as int;
            &&& r.len() == s.len()
            &&& forall|k: int| 0 <= k < s.len() && (k < o || k > e) ==> r[k] == s[k]
            &&& r.subrange(o, e + 1) == table_tokens(replaced(c.table@, "commit"@, v@)->Some_0)
        }),
{
    let o = c.table_open as int;
    let e = c.table_close as int;
    assert(table_spec(s, o) == Some((c.table@, e)));
    lemma_table_covers_tokens(s, o);
    let t = c.table@;
    let j = first_keyed_string(t.1, "commit"@, 0)->Some_0;
    crate::table::lemma_single_field_isolation(t, "commit"@, v@);
    let t2 = replaced(t, "commit"@, v@)->Some_0;
    let f = t.1[j];
    lemma_fields_flat_len_update(t.1, j, (f.0.update(2, (f.0[2].0, crate::table::quoted(v@), f.0[2].2)), f.1));
    assert(t2 == with_literal(t, j, v@));
    assert(t2.1 == t.1.update(j, (f.0.update(2, (f.0[2].0, crate::table::quoted(v@), f.0[2].2)), f.1)));
    assert(table_tokens(t2).len() == table_tokens(t).len());
    assert(table_tokens(t).len() == e - o + 1);
    assert(seq![c].drop_last() =~= Seq::<UseCall>::empty());
    assert(seq![Some(v)].subrange(0, 0) =~= Seq::<Option<String>>::empty());
    assert(apply_spec(s, seq![c].drop_last(), seq![Some(v)].subrange(0, 0)) == s);
    assert(seq![Some(v)][0] == Some(v));
    assert(seq![c].last() == c);
    let r = apply_spec(s, seq![c], seq![Some(v)]);
    assert(r == splice(s, o, e, table_tokens(t2)));
    assert(r.subrange(o, e + 1) =~= table_tokens(t2));
    assert forall|k: int| 0 <= k < s.len() && (k < o || k > e) implies r[k] == s[k] by {
        if k > e {
            assert(r[k] == s.subrange(e + 1, s.len() as int)[k - e - 1]);
        }
    }
}

/// Token views printed back to back.
pub open spec fn render_views(s: Seq<TokenV>) -> Seq<char>
    decreases s.len(),
{
    if s.len() == 0 {
        Seq::empty()
    } else {
        render_views(s.drop_last()) + (s.last().0 + s.last().1 + s.last().2)
    }
}

/// Printing tokens is printing their views.
pub proof fn lemma_render_views(s: Seq<Token>)
    ensures
        render_tokens(s) == render_views(token_views(s)),
    decreases s.len(),
{
    if s.len() > 0 {
        lemma_render_views(s.drop_last());
        assert(token_views(s.drop_last()) =~= token_views(s).drop_last());
        assert(token_text(s.last()) =~= s.last()@.0 + s.last()@.1 + s.last()@.2);
    }
}

proof fn lemma_render_views_concat(x: Seq<TokenV>, y: Seq<TokenV>)
    ensures
        render_views(x + y) == render_views(x) + render_views(y),
    decreases y.len(),
{
    if y.len() == 0 {
        assert(x + y =~= x);
    } else {
        lemma_render_views_concat(x, y.drop_last());
        assert((x + y).drop_last() =~= x + y.drop_last());
    }
}

proof fn lemma_fields_flat_concat(a: Seq<FieldV>, b: Seq<FieldV>)
    ensures
        fields_flat(a + b) == fields_flat(a) + fields_flat(b),
    decreases b.len(),
{
    if b.len() == 0 {
        assert(a + b =~= a);
    } else {
        lemma_fields_flat_concat(a, b.drop_last());
        assert((a + b).drop_last() =~= a + b.drop_last());
    }
}

/// The separator of a field as a token sequence.
pub open spec fn sep_tokens(f: FieldV) -> Seq<TokenV> {
    match f.1 {
        Some(x) => seq![x],
        None => Seq::empty(),
    }
}

/// The tokens of a table before the literal of field `j`.
pub open spec fn tokens_before_literal(t: (TokenV, Seq<FieldV>, TokenV), j: int) -> Seq<TokenV> {
    seq![t.0] + fields_flat(t.1.subrange(0, j)) + seq![t.1[j].0[0], t.1[j].0[1]]
}

/// The tokens of a table after the literal of field `j`.
pub open spec fn tokens_after_literal(t: (TokenV, Seq<FieldV>, TokenV), j: int) -> Seq<TokenV> {
    sep_tokens(t.1[j]) + fields_flat(t.1.subrange(j + 1, t.1.len() as int)) + seq![t.2]
}

proof fn lemma_table_tokens_split(t: (TokenV, Seq<FieldV>, TokenV), j: int)
    requires
        0 <= j < t.1.len(),
        t.1[j].0.len() == 3,
    ensures
        table_tokens(t) == tokens_before_literal(t, j) + seq![t.1[j].0[2]] + tokens_after_literal(
            t,
            j,
        ),
{
    let f = t.1[j];
    let pre = t.1.subrange(0, j);
    let post = t.1.subrange(j + 1, t.1.len() as int);
    assert(t.1 =~= pre + seq![f] + post);
    assert(seq![f].drop_last() =~= Seq::<FieldV>::empty());
    assert(fields_flat(Seq::<FieldV>::empty()) =~= Seq::<TokenV>::empty());
    assert(seq![f].last() == f);
    assert(fields_flat(seq![f]) =~= f.0 + sep_tokens(f));
    lemma_fields_flat_concat(pre + seq![f], post);
    lemma_fields_flat_concat(pre, seq![f]);
    assert(f.0 =~= seq![f.0[0], f.0[1], f.0[2]]);
    assert(table_tokens(t) =~= tokens_before_literal(t, j) + seq![f.0[2]] + tokens_after_literal(
        t,
        j,
    ));
}

proof fn lemma_render_around(a: Seq<TokenV>, x: TokenV, b: Seq<TokenV>)
    ensures
        render_views(a + seq![x] + b) == render_views(a) + x.0 + x.1 + x.2 + render_views(b),
{
    lemma_render_views_concat(a + seq![x], b);
    lemma_render_views_concat(a, seq![x]);
    assert(seq![x].drop_last() =~= Seq::<TokenV>::empty());
    assert(render_views(Seq::<TokenV>::empty()) =~= Seq::<char>::empty());
    assert(seq![x].last() == x);
    assert(render_views(seq![x]) =~= x.0 + x.1 + x.2);
    assert(render_views(a) + render_views(seq![x]) + render_views(b) =~= render_views(a) + x.0
        + x.1 + x.2 + render_views(b));
}

/// In printed text, replacing a keyed string changes the characters of the
/// old literal and nothing else: the printed old table is `p + old + q` and the
/// printed new one `p + "v" + q`, where `old` is the replaced literal's text.
pub proof fn lemma_isolation_in_text(t: (TokenV, Seq<FieldV>, TokenV), key: Seq<char>, v: Seq<char>)
    requires
        replaced(t, key, v) is Some,
    ensures
        ({
            let j = first_keyed_string(t.1, key, 0)->Some_0;
            let old_lit = t.1[j].0[2].1;
            exists|p: Seq<char>, q: Seq<char>|
                render_views(table_tokens(t)) == p + old_lit + q && render_views(
                    table_tokens(replaced(t, key, v)->Some_0),
                ) == p + crate::table::quoted(v) + q
        }),
{
    crate::table::lemma_single_field_isolation(t, key, v);
    let j = first_keyed_string(t.1, key, 0)->Some_0;
    let t2 = replaced(t, key, v)->Some_0;
    lemma_table_tokens_split(t, j);
    lemma_table_tokens_split(t2, j);
    assert(t2.1.subrange(0, j) =~= t.1.subrange(0, j));
    assert(t2.1.subrange(j + 1, t2.1.len() as int) =~= t.1.subrange(j + 1, t.1.len() as int));
    let a = tokens_before_literal(t, j);
    let b = tokens_after_literal(t, j);
    assert(tokens_before_literal(t2, j) == a);
    assert(tokens_after_literal(t2, j) == b);
    let lit = t.1[j].0[2];
    let lit2 = t2.1[j].0[2];
    lemma_render_around(a, lit, b);
    lemma_render_around(a, lit2, b);
    let p = render_views(a) + lit.0;
    let q = lit.2 + render_views(b);
    assert(render_views(table_tokens(t)) =~= p + lit.1 + q);
    assert(render_views(table_tokens(t2)) =~= p + crate::table::quoted(v) + q);
}

} // verus!
