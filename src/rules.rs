//! Rules: which files a glob pattern selects, and what is done to them.
//!
//! A rule file is a YAML mapping from glob patterns to records whose
//! `commands` entry lists command-line templates:
//!
//! ```yaml
//! "*.moon":
//!   commands:
//!     - "moonc %{src_file} %{tar_dir}/%{src_rel_noext}.lua"
//! ```
//!
//! Each entry of the mapping becomes one rule, in the order of the mapping;
//! the rules of several files are concatenated in the order of the files.

use vstd::prelude::*;
use crate::args::texts;
use crate::paths::same_text;

verus! {

/// A YAML node, as the rule files are read.
#[derive(Debug, PartialEq)]
pub enum YamlNode {
    /// A floating-point scalar, kept as its text.
    Real(String),
    Integer(i64),
    String(String),
    Boolean(bool),
    Array(Vec<YamlNode>),
    /// A mapping, its entries in the order of the document.
    Hash(Vec<(YamlNode, YamlNode)>),
    Alias(usize),
    Null,
    /// What is found under a key that is not there.
    BadValue,
}

/// What is done to a file.
#[derive(Debug, PartialEq)]
pub enum Transformation {
    /// Run these command lines, in order.
    Command(Vec<String>),
    /// Copy the file through unchanged.
    FileCopy,
}

/// The value of a [`Transformation`].
pub enum TransformView {
    Command(Seq<Seq<char>>),
    FileCopy,
}

impl View for Transformation {
    type V = TransformView;

    open spec fn view(&self) -> TransformView {
        match self {
            Transformation::Command(c) => TransformView::Command(texts(c@)),
            Transformation::FileCopy => TransformView::FileCopy,
        }
    }
}

/// A glob pattern and what is done to the files it matches.
#[derive(Debug, PartialEq)]
pub struct Rule {
    pub pattern: String,
    pub transform: Transformation,
}

/// The value of a [`Rule`].
pub struct RuleView {
    pub pattern: Seq<char>,
    pub transform: TransformView,
}

impl View for Rule {
    type V = RuleView;

    open spec fn view(&self) -> RuleView {
        RuleView { pattern: self.pattern@, transform: self.transform@ }
    }
}

/// The values of a list of rules.
pub open spec fn rule_views(rules: Seq<Rule>) -> Seq<RuleView> {
    rules.map_values(|r: Rule| r@)
}

/// Why a rule file could not be read.
#[derive(Debug, Clone, Copy, PartialEq, Eq)]
pub enum ParseError {
    /// The text holds more characters that may open a level of nesting
    /// than the loader is trusted with (see [`MAX_NESTING_MARKS`]).
    TooDeep,
    /// The text is not YAML.
    Syntax,
    /// The file holds no document, or its first document is not a mapping.
    NotAMapping,
    /// A key of the mapping is not a string.
    PatternNotString,
    /// A rule has no `commands` list.
    MissingCommands,
    /// An entry of a `commands` list is not a string.
    CommandNotString,
}

/// The text of a string node.
pub open spec fn yaml_str(y: YamlNode) -> Option<Seq<char>> {
    match y {
        YamlNode::String(s) => Some(s@),
        _ => None,
    }
}

/// The value of the first entry whose key is the string `key`.
pub open spec fn lookup(entries: Seq<(YamlNode, YamlNode)>, key: Seq<char>) -> Option<YamlNode>
    decreases entries.len(),
{
    if entries.len() == 0 {
        None
    } else if yaml_str(entries[0].0) == Some(key) {
        Some(entries[0].1)
    } else {
        lookup(entries.drop_first(), key)
    }
}

/// The texts of a list of nodes, if all of them are strings.
pub open spec fn strings_of(items: Seq<YamlNode>) -> Option<Seq<Seq<char>>>
    decreases items.len(),
{
    if items.len() == 0 {
        Some(Seq::empty())
    } else {
        match (strings_of(items.drop_last()), yaml_str(items.last())) {
            (Some(rest), Some(s)) => Some(rest.push(s)),
            _ => None,
        }
    }
}

/// The command lines of a rule's record.
pub open spec fn commands_of(value: YamlNode) -> Result<Seq<Seq<char>>, ParseError> {
    let list = match value {
        YamlNode::Hash(entries) => lookup(entries@, "commands"@),
        _ => None,
    };
    match list {
        Some(YamlNode::Array(items)) => match strings_of(items@) {
            Some(cmds) => Ok(cmds),
            None => Err(ParseError::CommandNotString),
        },
        _ => Err(ParseError::MissingCommands),
    }
}

/// The rule that the mapping entry `key: value` declares.
pub open spec fn rule_of(key: YamlNode, value: YamlNode) -> Result<RuleView, ParseError> {
    match yaml_str(key) {
        None => Err(ParseError::PatternNotString),
        Some(p) => match commands_of(value) {
            Ok(cmds) => Ok(RuleView { pattern: p, transform: TransformView::Command(cmds) }),
            Err(e) => Err(e),
        },
    }
}

/// The rules that the mapping entries declare, in order; the error is that of
/// the first entry that declares none.
pub open spec fn rules_of_entries(entries: Seq<(YamlNode, YamlNode)>) -> Result<Seq<RuleView>, ParseError>
    decreases entries.len(),
{
    if entries.len() == 0 {
        Ok(Seq::empty())
    } else {
        match rules_of_entries(entries.drop_last()) {
            Err(e) => Err(e),
            Ok(rs) => match rule_of(entries.last().0, entries.last().1) {
                Ok(r) => Ok(rs.push(r)),
                Err(e) => Err(e),
            },
        }
    }
}

/// The rules that a rule file's document declares.
pub open spec fn rules_of_doc(doc: YamlNode) -> Result<Seq<RuleView>, ParseError> {
    match doc {
        YamlNode::Hash(entries) => rules_of_entries(entries@),
        _ => Err(ParseError::NotAMapping),
    }
}

/// The text of `y`, if it is a string node.
fn as_str(y: &YamlNode) -> (r: Option<&String>)
    ensures
        match r {
            Some(s) => yaml_str(*y) == Some(s@),
            None => yaml_str(*y) is None,
        },
{
    match y {
        YamlNode::String(s) => Some(s),
        _ => None,
    }
}

/// The index of the first entry whose key is the string `key`.
fn find_key(entries: &Vec<(YamlNode, YamlNode)>, key: &str) -> (r: Option<usize>)
    ensures
        match r {
            Some(k) => k < entries@.len() && lookup(entries@, key@) == Some(entries@[k as int].1),
            None => lookup(entries@, key@) is None,
        },
{
    let mut i: usize = 0;
    assert(entries@.subrange(0, entries@.len() as int) =~= entries@);
    while i < entries.len()
        invariant
            i <= entries@.len(),
            lookup(entries@, key@) == lookup(entries@.subrange(i as int, entries@.len() as int), key@),
        decreases entries@.len() - i,
    {
        let ghost rest = entries@.subrange(i as int, entries@.len() as int);
        assert(rest.drop_first() =~= entries@.subrange(i + 1, entries@.len() as int));
        assert(rest[0] == entries@[i as int]);
        let found = match as_str(&entries[i].0) {
            Some(k) => same_text(k, key),
            None => false,
        };
        if found {
            return Some(i);
        }
        i = i + 1;
    }
    None
}

/// The command lines listed under `commands` in a rule's record.
fn parse_commands(args: &YamlNode) -> (r: Result<Vec<String>, ParseError>)
    ensures
        match commands_of(*args) {
            Ok(cmds) => r matches Ok(v) && texts(v@) == cmds,
            Err(e) => r == Err::<Vec<String>, ParseError>(e),
        },
{
    let list: Option<&YamlNode> = match args {
        YamlNode::Hash(entries) => match find_key(entries, "commands") {
            Some(k) => Some(&entries[k].1),
            None => None,
        },
        _ => None,
    };
    match list {
        Some(YamlNode::Array(items)) => {
            let mut cmds: Vec<String> = Vec::new();
            let mut i: usize = 0;
            assert(items@.subrange(0, 0) =~= Seq::<YamlNode>::empty());
            assert(texts(cmds@) =~= Seq::<Seq<char>>::empty());
            while i < items.len()
                invariant
                    i <= items@.len(),
                    commands_of(*args) == match strings_of(items@) {
                        Some(c) => Ok(c),
                        None => Err::<Seq<Seq<char>>, ParseError>(ParseError::CommandNotString),
                    },
                    strings_of(items@.subrange(0, i as int)) == Some(texts(cmds@)),
                decreases items@.len() - i,
            {
                let ghost prefix = items@.subrange(0, i + 1);
                assert(prefix.drop_last() =~= items@.subrange(0, i as int));
                match as_str(&items[i]) {
                    Some(s) => {
                        let ghost before = cmds@;
                        cmds.push(s.clone());
                        assert(texts(cmds@) =~= texts(before).push(s@));
                    },
                    None => {
                        proof {
                            assert(prefix.last() == items@[i as int]);
                            assert(strings_of(prefix) is None);
                            lemma_strings_of_prefix(items@, i as int + 1);
                        }
                        return Err(ParseError::CommandNotString);
                    },
                }
                i = i + 1;
            }
            assert(items@.subrange(0, items@.len() as int) =~= items@);
            Ok(cmds)
        },
        _ => Err(ParseError::MissingCommands),
    }
}

/// A list whose first `k` items are not all strings is not all strings.
proof fn lemma_strings_of_prefix(items: Seq<YamlNode>, k: int)
    requires
        0 <= k <= items.len(),
        strings_of(items.subrange(0, k)) is None,
    ensures
        strings_of(items) is None,
    decreases items.len() - k,
{
    if k < items.len() {
        assert(items.subrange(0, k + 1).drop_last() =~= items.subrange(0, k));
        lemma_strings_of_prefix(items, k + 1);
    } else {
        assert(items.subrange(0, k) =~= items);
    }
}

/// Reads the rule that the mapping entry `pattern: args` declares.
pub fn parse_rule(pattern: &YamlNode, args: &YamlNode) -> (r: Result<Rule, ParseError>)
    ensures
        match rule_of(*pattern, *args) {
            Ok(rv) => r matches Ok(rule) && rule@ == rv,
            Err(e) => r == Err::<Rule, ParseError>(e),
        },
{
    let pattern = match as_str(pattern) {
        Some(p) => p.clone(),
        None => return Err(ParseError::PatternNotString),
    };
    match parse_commands(args) {
        Ok(cmds) => Ok(Rule { pattern, transform: Transformation::Command(cmds) }),
        Err(e) => Err(e),
    }
}

/// Reads the rules that a rule file's document declares, in the order of its
/// entries.
pub fn rules_from_yaml(doc: &YamlNode) -> (r: Result<Vec<Rule>, ParseError>)
    ensures
        match rules_of_doc(*doc) {
            Ok(rs) => r matches Ok(v) && rule_views(v@) == rs,
            Err(e) => r == Err::<Vec<Rule>, ParseError>(e),
        },
{
    match doc {
        YamlNode::Hash(entries) => {
            let mut rules: Vec<Rule> = Vec::new();
            let mut i: usize = 0;
            assert(entries@.subrange(0, 0) =~= Seq::<(YamlNode, YamlNode)>::empty());
            assert(rule_views(rules@) =~= Seq::<RuleView>::empty());
            while i < entries.len()
                invariant
                    i <= entries@.len(),
                    rules_of_doc(*doc) == rules_of_entries(entries@),
                    rules_of_entries(entries@.subrange(0, i as int)) == Ok::<Seq<RuleView>, ParseError>(rule_views(rules@)),
                decreases entries@.len() - i,
            {
                let ghost prefix = entries@.subrange(0, i + 1);
                assert(prefix.drop_last() =~= entries@.subrange(0, i as int));
                match parse_rule(&entries[i].0, &entries[i].1) {
                    Ok(rule) => {
                        let ghost before = rules@;
                        rules.push(rule);
                        assert(rule_views(rules@) =~= rule_views(before).push(rule@));
                    },
                    Err(e) => {
                        proof {
                            assert(prefix.last() == entries@[i as int]);
                            assert(rules_of_entries(prefix) == Err::<Seq<RuleView>, ParseError>(e));
                            lemma_entries_error(entries@, i as int + 1, e);
                        }
                        return Err(e);
                    },
                }
                i = i + 1;
            }
            assert(entries@.subrange(0, entries@.len() as int) =~= entries@);
            Ok(rules)
        },
        _ => Err(ParseError::NotAMapping),
    }
}

/// An error among the first `k` entries is the error of all of them.
proof fn lemma_entries_error(entries: Seq<(YamlNode, YamlNode)>, k: int, e: ParseError)
    requires
        0 <= k <= entries.len(),
        rules_of_entries(entries.subrange(0, k)) == Err::<Seq<RuleView>, ParseError>(e),
    ensures
        rules_of_entries(entries) == Err::<Seq<RuleView>, ParseError>(e),
    decreases entries.len() - k,
{
    if k < entries.len() {
        assert(entries.subrange(0, k + 1).drop_last() =~= entries.subrange(0, k));
        lemma_entries_error(entries, k + 1, e);
    } else {
        assert(entries.subrange(0, k) =~= entries);
    }
}

#[verifier::external_type_specification]
#[verifier::external_body]
pub struct ExLoadedYaml(yaml_rust::Yaml);

#[verifier::external_type_specification]
#[verifier::external_body]
pub struct ExScanError(yaml_rust::ScanError);

/// Whether the YAML loader reads `text` without a scan error.
pub uninterp spec fn yaml_loads(text: Seq<char>) -> bool;

/// The documents that the YAML loader reads from `text`.
pub uninterp spec fn yaml_documents(text: Seq<char>) -> Seq<YamlNode>;

/// The characters with which YAML opens a level of nesting: a flow sequence
/// or mapping, a block sequence entry, an explicit key, a mapping value.
/// Every nested node needs at least one of them, so their number bounds the
/// depth of the document (characters inside scalars are counted too, which
/// only makes the bound coarser).
pub open spec fn is_nesting_mark(c: char) -> bool {
    c == '[' || c == '{' || c == '-' || c == '?' || c == ':'
}

/// The number of nesting marks in `s`.
pub open spec fn nesting_marks(s: Seq<char>) -> int
    decreases s.len(),
{
    if s.len() == 0 {
        0
    } else {
        nesting_marks(s.drop_last()) + if is_nesting_mark(s.last()) {
            1int
        } else {
            0int
        }
    }
}

/// The most nesting marks that a rule file may hold. The YAML loader (and the
/// conversion of its nodes) recurse once per level of nesting with no limit
/// of their own, so a deeper text could exhaust the stack.
pub const MAX_NESTING_MARKS: usize = 512;

/// The number of nesting marks in `text`.
pub fn count_nesting_marks(text: &str) -> (r: usize)
    ensures
        r == nesting_marks(text@),
{
    let v = crate::paths::chars_of(text);
    let mut count: usize = 0;
    let mut i: usize = 0;
    while i < v.len()
        invariant
            v@ == text@,
            i <= v@.len(),
            count <= i,
            count == nesting_marks(v@.subrange(0, i as int)),
        decreases v@.len() - i,
    {
        assert(v@.subrange(0, i + 1).drop_last() =~= v@.subrange(0, i as int));
        let c = v[i];
        if c == '[' || c == '{' || c == '-' || c == '?' || c == ':' {
            count = count + 1;
        }
        i = i + 1;
    }
    assert(v@.subrange(0, v@.len() as int) =~= v@);
    count
}

/// Relies on `yaml_rust::YamlLoader::load_from_str`: it reads the documents
/// of `text`, or reports a scan error, and what it reads depends on the text
/// alone. Each node is carried over one for one by `from_yaml`. The loader
/// builds nested nodes by recursion (`load_node`, `load_sequence`,
/// `load_mapping`) without a depth limit, so only texts of bounded nesting
/// are handed to it.
#[verifier::external_body]
fn load_yaml(text: &str) -> (r: Result<Vec<YamlNode>, yaml_rust::ScanError>)
    requires
        nesting_marks(text@) <= MAX_NESTING_MARKS,
    ensures
        r is Ok <==> yaml_loads(text@),
        r matches Ok(docs) ==> docs@ == yaml_documents(text@),
{
    match yaml_rust::YamlLoader::load_from_str(text) {
        Ok(docs) => Ok(docs.into_iter().map(from_yaml).collect()),
        Err(e) => Err(e),
    }
}

/// Carries a node of the YAML loader over into the library's own type, variant
/// for variant; mappings keep the order of their entries.
#[verifier::external_body]
fn from_yaml(y: yaml_rust::Yaml) -> YamlNode {
    match y {
        yaml_rust::Yaml::Real(s) => YamlNode::Real(s),
        yaml_rust::Yaml::Integer(i) => YamlNode::Integer(i),
        yaml_rust::Yaml::String(s) => YamlNode::String(s),
        yaml_rust::Yaml::Boolean(b) => YamlNode::Boolean(b),
        yaml_rust::Yaml::Array(a) => YamlNode::Array(a.into_iter().map(from_yaml).collect()),
        yaml_rust::Yaml::Hash(h) => YamlNode::Hash(h.into_iter().map(|(k, v)| (from_yaml(k), from_yaml(v))).collect()),
        yaml_rust::Yaml::Alias(n) => YamlNode::Alias(n),
        yaml_rust::Yaml::Null => YamlNode::Null,
        yaml_rust::Yaml::BadValue => YamlNode::BadValue,
    }
}

/// The rules that a rule file's text declares: those of its first document.
pub open spec fn rules_of_text(text: Seq<char>) -> Result<Seq<RuleView>, ParseError> {
    let docs = yaml_documents(text);
    if nesting_marks(text) > MAX_NESTING_MARKS {
        Err(ParseError::TooDeep)
    } else if !yaml_loads(text) {
        Err(ParseError::Syntax)
    } else if docs.len() == 0 {
        Err(ParseError::NotAMapping)
    } else {
        rules_of_doc(docs[0])
    }
}

/// The rules that several rule files declare, concatenated in the order of
/// the files; the error is that of the first file that fails.
pub open spec fn rules_of_texts(ts: Seq<Seq<char>>) -> Result<Seq<RuleView>, ParseError>
    decreases ts.len(),
{
    if ts.len() == 0 {
        Ok(Seq::empty())
    } else {
        match rules_of_texts(ts.drop_last()) {
            Err(e) => Err(e),
            Ok(rs) => match rules_of_text(ts.last()) {
                Ok(more) => Ok(rs + more),
                Err(e) => Err(e),
            },
        }
    }
}

/// Reads the rules that a rule file's text declares.
pub fn parse_rules(text: &str) -> (r: Result<Vec<Rule>, ParseError>)
    ensures
        match rules_of_text(text@) {
            Ok(rs) => r matches Ok(v) && rule_views(v@) == rs,
            Err(e) => r == Err::<Vec<Rule>, ParseError>(e),
        },
{
    if count_nesting_marks(text) > MAX_NESTING_MARKS {
        return Err(ParseError::TooDeep);
    }
    match load_yaml(text) {
        Ok(docs) => {
            if docs.len() == 0 {
                Err(ParseError::NotAMapping)
            } else {
                rules_from_yaml(&docs[0])
            }
        },
        Err(_) => Err(ParseError::Syntax),
    }
}

/// Reads the rules of several rule files and concatenates them in the order
/// of the files.
pub fn load_rules(texts: &Vec<String>) -> (r: Result<Vec<Rule>, ParseError>)
    ensures
        match rules_of_texts(crate::args::texts(texts@)) {
            Ok(rs) => r matches Ok(v) && rule_views(v@) == rs,
            Err(e) => r == Err::<Vec<Rule>, ParseError>(e),
        },
{
    let ghost ts = crate::args::texts(texts@);
    let mut all: Vec<Rule> = Vec::new();
    let mut i: usize = 0;
    assert(ts.subrange(0, 0) =~= Seq::<Seq<char>>::empty());
    assert(rule_views(all@) =~= Seq::<RuleView>::empty());
    while i < texts.len()
        invariant
            ts == crate::args::texts(texts@),
            i <= texts@.len(),
            rules_of_texts(ts.subrange(0, i as int)) == Ok::<Seq<RuleView>, ParseError>(rule_views(all@)),
        decreases texts@.len() - i,
    {
        let ghost prefix = ts.subrange(0, i + 1);
        assert(prefix.drop_last() =~= ts.subrange(0, i as int));
        assert(prefix.last() == texts@[i as int]@);
        match parse_rules(texts[i].as_str()) {
            Ok(mut more) => {
                let ghost before = rule_views(all@);
                let ghost added = rule_views(more@);
                all.append(&mut more);
                assert(rule_views(all@) =~= before + added);
            },
            Err(e) => {
                proof {
                    lemma_texts_error(ts, i as int + 1, e);
                }
                return Err(e);
            },
        }
        i = i + 1;
    }
    assert(ts.subrange(0, texts@.len() as int) =~= ts);
    Ok(all)
}

/// An error among the first `k` files is the error of all of them.
proof fn lemma_texts_error(ts: Seq<Seq<char>>, k: int, e: ParseError)
    requires
        0 <= k <= ts.len(),
        rules_of_texts(ts.subrange(0, k)) == Err::<Seq<RuleView>, ParseError>(e),
    ensures
        rules_of_texts(ts) == Err::<Seq<RuleView>, ParseError>(e),
    decreases ts.len() - k,
{
    if k < ts.len() {
        assert(ts.subrange(0, k + 1).drop_last() =~= ts.subrange(0, k));
        lemma_texts_error(ts, k + 1, e);
    } else {
        assert(ts.subrange(0, k) =~= ts);
    }
}

} // verus!
