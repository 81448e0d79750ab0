use packer_pin::locate::{
    find_declaration, find_define_plugins_function, parse_packer_use_calls, table_at,
    does_have_commit_key, UseCall,
};
use packer_pin::rewrite::{apply_updates, skipped_updates, get_function_call_by_table_ctor, replace_table_constructor, table_token_seq};
use packer_pin::syntax::{parse, render, render_token_seq, Document};
use packer_pin::table::{get_branch, get_commit, get_keyed_string, get_plugin_name, replace_keyed_string, TableConstructor};
use packer_pin::git::choose_update;

fn doc_of(text: &str) -> Document {
    parse(text).ok().expect("valid Lua")
}

fn calls_of(doc: &Document) -> Vec<UseCall> {
    let decl = find_define_plugins_function(doc).expect("declaration");
    parse_packer_use_calls(doc, decl)
}

fn first_table(doc: &Document) -> TableConstructor {
    let open = doc.tokens.iter().position(|t| t.text == "{").unwrap();
    table_at(&doc.tokens, open).unwrap().0
}

fn table_text(t: &TableConstructor) -> String {
    render_token_seq(&table_token_seq(t))
}

fn apply_one(text: &str, choice: Option<&str>) -> String {
    let doc = doc_of(text);
    let calls = calls_of(&doc);
    let choices: Vec<Option<String>> = calls.iter().map(|_| choice.map(|c| c.to_owned())).collect();
    render(&apply_updates(&doc, &calls, &choices))
}

const SCENARIO: &str = "-- plugins\nlocal function define_plugins(use)\n  use({ \"foo/bar\", commit = \"abc123\" })\nend\n\nreturn define_plugins\n";

#[test]
fn round_trip_keeps_every_byte() {
    let texts = [
        SCENARIO,
        "",
        "  \n-- only a comment",
        "local x = { 'a', [[b]], c = 1; d = --[[ inline ]] \"e\", }\n\n\t-- tail\n",
        "#!/usr/bin/lua\nprint(\"hi\")   -- done",
        "local function f(a, b)\r\n  return a .. b\r\nend",
    ];
    for text in texts.iter() {
        let doc = doc_of(text);
        assert_eq!(render(&doc), *text);
    }
}

#[test]
fn invalid_lua_is_a_parse_error() {
    let err = parse("local x = ").err().expect("must fail");
    assert!(!err.message.is_empty());
    assert!(parse("use({ \"a\" ").is_err());
}

#[test]
fn scenario_select_new_revision() {
    let doc = doc_of(SCENARIO);
    let calls = calls_of(&doc);
    assert_eq!(calls.len(), 1);
    let table = &calls[0].table;
    assert_eq!(get_plugin_name(table), Some("foo/bar".to_owned()));
    assert_eq!(get_commit(table), Some("abc123".to_owned()));
    assert_eq!(get_branch(table), None);
    let choice = choose_update("abc123", "def456", 1);
    assert_eq!(choice, Some("def456".to_owned()));
    let out = render(&apply_updates(&doc, &calls, &vec![choice]));
    assert_eq!(
        out,
        "-- plugins\nlocal function define_plugins(use)\n  use({ \"foo/bar\", commit = \"def456\" })\nend\n\nreturn define_plugins\n"
    );
}

#[test]
fn scenario_select_current_keeps_file() {
    let doc = doc_of(SCENARIO);
    let calls = calls_of(&doc);
    let choice = choose_update("abc123", "def456", 0);
    assert_eq!(choice, None);
    assert_eq!(render(&apply_updates(&doc, &calls, &vec![choice])), SCENARIO);
    assert_eq!(choose_update("def456", "def456", 1), None);
}

#[test]
fn scenario_call_without_commit_is_no_candidate() {
    let text = "local function define_plugins(use)\n  use({ \"foo/bar\", branch = \"dev\" })\nend\n";
    let doc = doc_of(text);
    assert!(calls_of(&doc).is_empty());
    assert_eq!(apply_one(text, Some("zzz")), text);
}

#[test]
fn brace_call_form_and_trivia_are_kept() {
    let text = "local function my_define_plugins(use)\n  use {\n    'owner/repo', -- id\n    commit =  'aaa'   --[[ pin ]],\n    branch = \"stable\",\n  }\nend\n";
    let doc = doc_of(text);
    let calls = calls_of(&doc);
    assert_eq!(calls.len(), 1);
    assert!(does_have_commit_key(&calls[0]));
    assert_eq!(get_plugin_name(&calls[0].table), Some("owner/repo".to_owned()));
    assert_eq!(get_branch(&calls[0].table), Some("stable".to_owned()));
    assert_eq!(
        apply_one(text, Some("bbb")),
        "local function my_define_plugins(use)\n  use {\n    'owner/repo', -- id\n    commit =  \"bbb\"   --[[ pin ]],\n    branch = \"stable\",\n  }\nend\n"
    );
}

#[test]
fn only_direct_use_statements_are_candidates() {
    let text = "local function define_plugins(use)\n  use { 'a/one', commit = '1' }\n  if x then use { 'a/two', commit = '2' } end\n  local y = use { 'a/three', commit = '3' }\n  packer.use { 'a/four', commit = '4' }\n  use({ 'a/five', commit = '5' })\nend\nuse { 'a/six', commit = '6' }\n";
    let doc = doc_of(text);
    let calls = calls_of(&doc);
    let names: Vec<String> = calls.iter().map(|c| get_plugin_name(&c.table).unwrap()).collect();
    assert_eq!(names, vec!["a/one".to_owned(), "a/five".to_owned()]);
}

#[test]
fn separators_inside_nested_code_do_not_split_fields() {
    let text = "local function define_plugins(use)\n  use { 'x/y', config = function() local a, b = f({1, 2}, \"s\"); end, commit = 'c0' }\nend\n";
    let doc = doc_of(text);
    let calls = calls_of(&doc);
    assert_eq!(calls.len(), 1);
    assert_eq!(calls[0].table.fields.len(), 3);
    assert_eq!(get_commit(&calls[0].table), Some("c0".to_owned()));
}

#[test]
fn missing_declaration_is_reported() {
    let doc = doc_of("local function setup(use)\n use { 'a/b', commit = 'c' }\nend\n");
    assert_eq!(find_define_plugins_function(&doc), None);
    assert_eq!(find_declaration(&doc, "setup"), Some(0));
    let nested = doc_of("do local function define_plugins() end end");
    assert_eq!(find_define_plugins_function(&nested), None);
}

#[test]
fn replace_changes_only_the_literal() {
    let doc = doc_of("local t = { 'p/q' , commit =--[[a]] \"old\" --[[b]]; x = 1 }");
    let table = first_table(&doc);
    let new_table = replace_table_constructor(&table, "new").unwrap();
    assert_eq!(table_text(&new_table), " { 'p/q' , commit =--[[a]] \"new\" --[[b]]; x = 1 }");
    assert_eq!(new_table.fields.len(), table.fields.len());
}

#[test]
fn replace_with_current_value_is_identity() {
    let doc = doc_of("local t = {\"p/q\", commit = \"same\", }");
    let table = first_table(&doc);
    let again = replace_keyed_string(&table, "commit", "same").unwrap();
    assert_eq!(table_text(&again), table_text(&table));
}

#[test]
fn replace_without_key_gives_none() {
    let doc = doc_of("local t = { 'p/q', branch = 'main' }");
    let table = first_table(&doc);
    assert!(replace_keyed_string(&table, "commit", "v").is_none());
    assert_eq!(get_commit(&table), None);
    assert_eq!(table_text(&table), " { 'p/q', branch = 'main' }");
}

#[test]
fn duplicate_key_first_occurrence_wins() {
    let doc = doc_of("local t = { 'p/q', commit = 'first', commit = 'second' }");
    let table = first_table(&doc);
    assert_eq!(get_commit(&table), Some("first".to_owned()));
    let new_table = replace_keyed_string(&table, "commit", "z").unwrap();
    assert_eq!(table_text(&new_table), " { 'p/q', commit = \"z\", commit = 'second' }");
}

#[test]
fn non_string_value_is_skipped_for_string_lookup() {
    let doc = doc_of("local t = { commit = sha, commit = [==[long]==], name = \"n\" .. \"m\" }");
    let table = first_table(&doc);
    assert_eq!(get_keyed_string(&table, "commit"), Some("long".to_owned()));
    assert_eq!(get_keyed_string(&table, "name"), None);
    assert_eq!(get_plugin_name(&table), None);
}

#[test]
fn finds_call_owning_a_table() {
    let doc = doc_of(SCENARIO);
    let calls = calls_of(&doc);
    let table = calls[0].table.clone();
    assert_eq!(get_function_call_by_table_ctor(&calls, &table), Some(0));
    let other = first_table(&doc_of("local t = { 'x' }"));
    assert_eq!(get_function_call_by_table_ctor(&calls, &other), None);
}

#[test]
fn several_candidates_updated_independently() {
    let text = "local function define_plugins(use)\n  use { 'a/b', commit = '111111' }\n  use { 'c/d', commit = '222222' }\nend\n";
    let doc = doc_of(text);
    let calls = calls_of(&doc);
    assert_eq!(calls.len(), 2);
    let out = render(&apply_updates(&doc, &calls, &vec![None, Some("333333".to_owned())]));
    assert_eq!(out, "local function define_plugins(use)\n  use { 'a/b', commit = '111111' }\n  use { 'c/d', commit = \"333333\" }\nend\n");
}

#[test]
fn chosen_update_without_commit_string_is_reported() {
    let text = "local function define_plugins(use)\n  use { 'a/b', commit = sha }\n  use { 'c/d', commit = 'x' }\nend\n";
    let doc = doc_of(text);
    let calls = calls_of(&doc);
    assert_eq!(calls.len(), 2);
    let choices = vec![Some("new1".to_owned()), Some("new2".to_owned())];
    assert_eq!(skipped_updates(&calls, &choices), vec![0]);
    assert_eq!(skipped_updates(&calls, &vec![None, None]), Vec::<usize>::new());
    let out = render(&apply_updates(&doc, &calls, &choices));
    assert_eq!(out, "local function define_plugins(use)\n  use { 'a/b', commit = sha }\n  use { 'c/d', commit = \"new2\" }\nend\n");
}
