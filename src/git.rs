//! Remote head records and the per-plugin decisions made from them.
use vstd::prelude::*;
use crate::text::{find_char, find_char_from, str_eq};

verus! {

/// The kind of a remote reference, from its second path component.
#[derive(Debug)]
pub enum RemoteHeadType {
    Head,
    Pull,
    Tag,
    Unknown { kind_name: String },
}

/// What `RemoteHeadType::from_str` gives for the text `s`.
pub open spec fn head_type_matches(t: RemoteHeadType, s: Seq<char>) -> bool {
    if s == "heads"@ {
        t is Head
    } else if s == "pulls"@ {
        t is Pull
    } else if s == "tags"@ {
        t is Tag
    } else {
        t matches RemoteHeadType::Unknown { kind_name } && kind_name@ == s
    }
}

impl RemoteHeadType {
    pub fn from_str(type_str: &str) -> (r: Self)
        ensures
            head_type_matches(r, type_str@),
    {
        if str_eq(type_str, "heads") {
            Self::Head
        } else if str_eq(type_str, "pulls") {
            Self::Pull
        } else if str_eq(type_str, "tags") {
            Self::Tag
        } else {
            Self::Unknown { kind_name: type_str.to_owned() }
        }
    }
}

/// One remote reference with the revision it points at.
#[derive(Debug)]
pub struct RemoteHeadCommit {
    pub sha: String,
    pub name: String,
    pub message: String,
    pub full_name: String,
    pub type_: RemoteHeadType,
}

/// The short name of a reference such as `refs/heads/main/x`: what follows its
/// second `/`, or the whole name when it has fewer than two.
pub open spec fn short_ref_name(full: Seq<char>) -> Seq<char> {
    match find_char_from(full, '/', 0) {
        Some(p1) => match find_char_from(full, '/', p1 + 1) {
            Some(p2) => full.subrange(p2 + 1, full.len() as int),
            None => full,
        },
        None => full,
    }
}

/// Whether `t` is the kind named between the first and second `/` of `full`
/// (a `Head` when there are fewer than two).
pub open spec fn ref_type_matches(t: RemoteHeadType, full: Seq<char>) -> bool {
    match find_char_from(full, '/', 0) {
        Some(p1) => match find_char_from(full, '/', p1 + 1) {
            Some(p2) => head_type_matches(t, full.subrange(p1 + 1, p2)),
            None => t is Head,
        },
        None => t is Head,
    }
}

proof fn lemma_find_in_range(s: Seq<char>, c: char, from: int)
    ensures
        find_char_from(s, c, from) matches Some(i) ==> from <= i < s.len() && s[i] == c,
    decreases s.len() - from,
{
    if from >= 0 && from < s.len() && s[from] != c {
        lemma_find_in_range(s, c, from + 1);
    }
}

impl RemoteHeadCommit {
    /// The record that stands for the revision a plugin is pinned to now.
    pub fn from_current_commit(sha: String) -> (r: Self)
        ensures
            r.sha@ == sha@,
            r.name@ == "(Current)"@,
            r.full_name@ == "(Current)"@,
            r.message@.len() == 0,
            r.type_ matches RemoteHeadType::Unknown { kind_name } && kind_name@ == "Current"@,
    {
        proof {
            reveal_strlit("");
        }
        Self {
            sha,
            name: "(Current)".to_owned(),
            full_name: "(Current)".to_owned(),
            type_: RemoteHeadType::Unknown { kind_name: "Current".to_owned() },
            message: "".to_owned(),
        }
    }

    /// The record for one line of a remote listing: `full_name` is a reference
    /// such as `refs/heads/main`.
    pub fn from_remote_ls(sha: String, full_name: String, message: String) -> (r: Self)
        ensures
            r.sha@ == sha@,
            r.full_name@ == full_name@,
            r.message@ == message@,
            r.name@ == short_ref_name(full_name@),
            ref_type_matches(r.type_, full_name@),
    {
        let full = full_name.as_str();
        let n = full.unicode_len();
        if let Some(p1) = find_char(full, '/', 0) {
            proof {
                lemma_find_in_range(full@, '/', 0);
            }
            if let Some(p2) = find_char(full, '/', p1 + 1) {
                proof {
                    lemma_find_in_range(full@, '/', p1 + 1);
                }
                let name = full.substring_char(p2 + 1, n).to_owned();
                let type_ = RemoteHeadType::from_str(full.substring_char(p1 + 1, p2));
                return Self { sha, name, full_name: full_name.clone(), type_, message };
            }
        }
        let name = full_name.clone();
        Self { sha, name, full_name, type_: RemoteHeadType::Head, message }
    }

    /// The label shown for this record: its first six revision characters in
    /// parentheses, then its name.
    pub fn to_string(&self) -> (r: String)
        requires
            self.sha@.len() >= 6,
        ensures
            r@ == "("@ + self.sha@.subrange(0, 6) + ") "@ + self.name@,
    {
        let mut out = String::from_str("(");
        out.append(self.sha.as_str().substring_char(0, 6));
        out.append(") ");
        out.append(self.name.as_str());
        out
    }
}

/// The name of a plugin's working copy: what follows the first `/` of its
/// identifier, or the whole identifier.
pub open spec fn repo_name_of(plugin: Seq<char>) -> Seq<char> {
    match find_char_from(plugin, '/', 0) {
        Some(p) => plugin.subrange(p + 1, plugin.len() as int),
        None => plugin,
    }
}

pub fn get_repo_name(plugin_name: &str) -> (r: String)
    ensures
        r@ == repo_name_of(plugin_name@),
{
    let n = plugin_name.unicode_len();
    match find_char(plugin_name, '/', 0) {
        Some(p) => {
            proof {
                lemma_find_in_range(plugin_name@, '/', 0);
            }
            plugin_name.substring_char(p + 1, n).to_owned()
        },
        None => plugin_name.to_owned(),
    }
}

/// The branch a plugin follows: the one it is locked to, else the remote's default.
pub fn identify_target_branch_name(default_branch: &str, locked_branch: Option<&str>) -> (r: String)
    ensures
        r@ == (match locked_branch {
            Some(b) => b@,
            None => default_branch@,
        }),
{
    match locked_branch {
        Some(b) => b.to_owned(),
        None => default_branch.to_owned(),
    }
}

/// Index of the first head whose short name is `branch`.
pub fn find_head_for_branch(heads: &Vec<RemoteHeadCommit>, branch: &str) -> (r: Option<usize>)
    ensures
        r matches Some(i) ==> i < heads@.len() && heads@[i as int].name@ == branch@
            && forall|j: int| 0 <= j < i ==> heads@[j].name@ != branch@,
        r is None ==> forall|j: int| 0 <= j < heads@.len() ==> heads@[j].name@ != branch@,
{
    let mut i: usize = 0;
    while i < heads.len()
        invariant
            i <= heads@.len(),
            forall|j: int| 0 <= j < i ==> heads@[j].name@ != branch@,
        decreases heads@.len() - i,
    {
        if str_eq(heads[i].name.as_str(), branch) {
            return Some(i);
        }
        i = i + 1;
    }
    None
}


/// The first two labels offered for a plugin: its pinned revision, then the
/// head of the branch it follows.
pub fn prompt_labels(current: &RemoteHeadCommit, head: &RemoteHeadCommit) -> (r: Vec<String>)
    requires
        current.sha@.len() >= 6,
        head.sha@.len() >= 6,
    ensures
        r@.len() == 2,
        r@[0]@ == "("@ + current.sha@.subrange(0, 6) + ") "@ + current.name@,
        r@[1]@ == "("@ + head.sha@.subrange(0, 6) + ") "@ + head.name@,
{
    let mut labels: Vec<String> = Vec::new();
    labels.push(current.to_string());
    labels.push(head.to_string());
    labels
}

/// The revision to write for a plugin pinned at `current` whose branch head is
/// `head_sha`, once the operator picked `selected` among the labels: the head
/// when it differs from the pin and the second label was picked, else none.
pub fn choose_update(current: &str, head_sha: &str, selected: usize) -> (r: Option<String>)
    ensures
        r matches Some(v) ==> v@ == head_sha@,
        r is Some <==> (current@ != head_sha@ && selected == 1),
{
    if str_eq(current, head_sha) || selected != 1 {
        None
    } else {
        Some(head_sha.to_owned())
    }
}

/// Whether a character has the Unicode `White_Space` property, which is what
/// `str::trim` strips.
pub open spec fn is_white_space(c: char) -> bool {
    ('\u{9}' <= c && c <= '\u{d}') || c == ' ' || c == '\u{85}' || c == '\u{a0}' || c
        == '\u{1680}' || ('\u{2000}' <= c && c <= '\u{200a}') || c == '\u{2028}' || c
        == '\u{2029}' || c == '\u{202f}' || c == '\u{205f}' || c == '\u{3000}'
}

/// `s` without its leading white space.
pub open spec fn trim_start(s: Seq<char>) -> Seq<char>
    decreases s.len(),
{
    if s.len() > 0 && is_white_space(s[0]) {
        trim_start(s.drop_first())
    } else {
        s
    }
}

/// `s` without its trailing white space.
pub open spec fn trim_end(s: Seq<char>) -> Seq<char>
    decreases s.len(),
{
    if s.len() > 0 && is_white_space(s.last()) {
        trim_end(s.drop_last())
    } else {
        s
    }
}

/// `s` without leading and trailing white space.
pub open spec fn trimmed(s: Seq<char>) -> Seq<char> {
    trim_end(trim_start(s))
}

fn char_is_white_space(c: char) -> (r: bool)
    ensures
        r == is_white_space(c),
{
    ('\u{9}' <= c && c <= '\u{d}') || c == ' ' || c == '\u{85}' || c == '\u{a0}' || c
        == '\u{1680}' || ('\u{2000}' <= c && c <= '\u{200a}') || c == '\u{2028}' || c
        == '\u{2029}' || c == '\u{202f}' || c == '\u{205f}' || c == '\u{3000}'
}

/// The text without leading and trailing white space.
pub fn trim_text(s: &str) -> (r: String)
    ensures
        r@ == trimmed(s@),
{
    let n = s.unicode_len();
    let mut a: usize = 0;
    assert(s@.subrange(0, n as int) =~= s@);
    while a < n && char_is_white_space(s.get_char(a))
        invariant
            n == s@.len(),
            a <= n,
            trim_start(s@) == trim_start(s@.subrange(a as int, n as int)),
        decreases n - a,
    {
        assert(s@.subrange(a as int, n as int).drop_first() =~= s@.subrange(a + 1, n as int));
        a = a + 1;
    }
    assert(trim_start(s@) == s@.subrange(a as int, n as int));
    let mut b: usize = n;
    while b > a && char_is_white_space(s.get_char(b - 1))
        invariant
            n == s@.len(),
            a <= b <= n,
            trimmed(s@) == trim_end(s@.subrange(a as int, b as int)),
        decreases b - a,
    {
        assert(s@.subrange(a as int, b as int).drop_last() =~= s@.subrange(a as int, b - 1));
        b = b - 1;
    }
    s.substring_char(a, b).to_owned()
}

/// What removing every match of a regular expression from a text gives.
pub uninterp spec fn regex_removed(pattern: Seq<char>, s: Seq<char>) -> Seq<char>;

/// Whether a regular expression compiles.
pub uninterp spec fn regex_compiles(pattern: Seq<char>) -> bool;

/// Relies on `regex::Regex::new` and `Regex::replace_all` with an empty
/// replacement: the text with every match of `pattern` removed; `None` when
/// the pattern does not compile, which depends on the pattern alone.
#[verifier::external_body]
fn remove_matches(pattern: &str, s: &str) -> (r: Option<String>)
    ensures
        r is Some <==> regex_compiles(pattern@),
        r matches Some(x) ==> x@ == regex_removed(pattern@, s@),
{
    match regex::Regex::new(pattern) {
        Ok(re) => Some(re.replace_all(s, "").into_owned()),
        Err(_) => None,
    }
}

/// The default branch named by the contents of `.git/refs/remotes/origin/HEAD`:
/// the trimmed text with the `ref: refs/remotes/origin/` prefix removed.
pub fn branch_from_head_ref(content: &str) -> (r: Option<String>)
    ensures
        r is Some <==> regex_compiles("ref:\\s*refs/remotes/origin/"@),
        r matches Some(b) ==> b@ == regex_removed("ref:\\s*refs/remotes/origin/"@, trimmed(content@)),
{
    let t = trim_text(content);
    remove_matches("ref:\\s*refs/remotes/origin/", t.as_str())
}
} // verus!
