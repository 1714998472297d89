//! The build, as a plan of steps.
//!
//! A build walks the source tree, reads the rule files (every file named
//! `meku.yml`), decides for each other file which rule governs it (the first
//! whose pattern matches its relative path; files that none matches are
//! copied through), and then performs the decided steps in the order in which
//! the files were found. This module makes every one of those decisions; the
//! caller walks the tree and performs the steps.

use vstd::prelude::*;
use crate::args::{argenize, args_of, texts, ArgError};
use crate::glob::{glob_matches, glob_regex, pattern_match, regex_compiles, PatternError};
use crate::paths::{file_name, file_name_of, join, join_path, same_text};
use crate::placeholder::{apply_holder, expand};
use crate::rules::{rule_views, Rule, RuleView, TransformView, Transformation};

verus! {

/// Whether the file at `path` declares rules.
pub open spec fn is_rule_path(path: Seq<char>) -> bool {
    file_name(path) == "meku.yml"@
}

/// Whether the file at `path` declares rules.
pub fn is_rule_file(path: &str) -> (r: bool)
    ensures
        r == is_rule_path(path@),
{
    let name = file_name_of(path);
    same_text(&name, "meku.yml")
}

/// The walked files split into rule files and content files, each part in
/// the order of the walk.
pub fn partition_files(paths: &Vec<String>) -> (r: (Vec<String>, Vec<String>))
    ensures
        texts(r.0@) == texts(paths@).filter(|p: Seq<char>| is_rule_path(p)),
        texts(r.1@) == texts(paths@).filter(|p: Seq<char>| !is_rule_path(p)),
{
    let ghost all = texts(paths@);
    let mut rule_files: Vec<String> = Vec::new();
    let mut content: Vec<String> = Vec::new();
    let mut i: usize = 0;
    assert(all.subrange(0, 0) =~= Seq::<Seq<char>>::empty());
    assert(texts(rule_files@) =~= Seq::<Seq<char>>::empty());
    assert(texts(content@) =~= Seq::<Seq<char>>::empty());
    while i < paths.len()
        invariant
            all == texts(paths@),
            i <= paths@.len(),
            texts(rule_files@) == all.subrange(0, i as int).filter(|p: Seq<char>| is_rule_path(p)),
            texts(content@) == all.subrange(0, i as int).filter(|p: Seq<char>| !is_rule_path(p)),
        decreases paths@.len() - i,
    {
        let ghost prefix = all.subrange(0, i + 1);
        assert(prefix.drop_last() =~= all.subrange(0, i as int));
        assert(prefix.last() == paths@[i as int]@);
        proof {
            reveal_with_fuel(Seq::filter, 1);
        }
        let p = paths[i].clone();
        if is_rule_file(p.as_str()) {
            let ghost before = texts(rule_files@);
            rule_files.push(p);
            assert(texts(rule_files@) =~= before.push(p@));
        } else {
            let ghost before = texts(content@);
            content.push(p);
            assert(texts(content@) =~= before.push(p@));
        }
        i = i + 1;
    }
    assert(all.subrange(0, paths@.len() as int) =~= all);
    (rule_files, content)
}

/// What the first rule whose pattern matches `path` does, or a plain copy
/// where none matches.
pub open spec fn resolve(rules: Seq<RuleView>, path: Seq<char>) -> TransformView
    decreases rules.len(),
{
    if rules.len() == 0 {
        TransformView::FileCopy
    } else if glob_matches(rules[0].pattern, path) {
        rules[0].transform
    } else {
        resolve(rules.drop_first(), path)
    }
}

/// Whether the regex engine compiles the pattern of every rule.
pub open spec fn patterns_compile(rules: Seq<RuleView>) -> bool {
    forall|k: int| 0 <= k < rules.len() ==> regex_compiles(glob_regex(#[trigger] rules[k].pattern))
}

/// Whether `p` is the pattern of one of the rules and the regex engine refuses it.
pub open spec fn has_bad_pattern(rules: Seq<RuleView>, p: Seq<char>) -> bool {
    exists|k: int| 0 <= k < rules.len() && #[trigger] rules[k].pattern == p && !regex_compiles(glob_regex(p))
}

/// A copy of a transformation.
pub fn copy_transform(t: &Transformation) -> (r: Transformation)
    ensures
        r@ == t@,
{
    match t {
        Transformation::Command(cmds) => {
            let mut out: Vec<String> = Vec::new();
            let mut i: usize = 0;
            while i < cmds.len()
                invariant
                    i <= cmds@.len(),
                    texts(out@) == texts(cmds@.subrange(0, i as int)),
                decreases cmds@.len() - i,
            {
                let ghost before = texts(out@);
                out.push(cmds[i].clone());
                assert(texts(out@) =~= before.push(cmds@[i as int]@));
                assert(texts(cmds@.subrange(0, i + 1)) =~= texts(cmds@.subrange(0, i as int)).push(cmds@[i as int]@));
                i = i + 1;
            }
            assert(cmds@.subrange(0, cmds@.len() as int) =~= cmds@);
            Transformation::Command(out)
        },
        Transformation::FileCopy => Transformation::FileCopy,
    }
}

/// What is done to the file at the relative path `rel`: the transformation of
/// the first rule whose pattern matches it, or a plain copy.
pub fn resolve_transform(rules: &Vec<Rule>, rel: &str) -> (r: Result<Transformation, PatternError>)
    ensures
        r matches Ok(t) ==> t@ == resolve(rule_views(rules@), rel@),
        patterns_compile(rule_views(rules@)) ==> r is Ok,
        r matches Err(e) ==> has_bad_pattern(rule_views(rules@), e.pattern@),
{
    let ghost rs = rule_views(rules@);
    let mut i: usize = 0;
    assert(rs.subrange(0, rs.len() as int) =~= rs);
    while i < rules.len()
        invariant
            rs == rule_views(rules@),
            i <= rules@.len(),
            resolve(rs, rel@) == resolve(rs.subrange(i as int, rs.len() as int), rel@),
        decreases rules@.len() - i,
    {
        let ghost rest = rs.subrange(i as int, rs.len() as int);
        assert(rest.drop_first() =~= rs.subrange(i + 1, rs.len() as int));
        assert(rest[0] == rules@[i as int]@);
        assert(rs[i as int] == rules@[i as int]@);
        match pattern_match(rules[i].pattern.as_str(), rel) {
            Ok(true) => {
                return Ok(copy_transform(&rules[i].transform));
            },
            Ok(false) => {},
            Err(e) => {
                return Err(e);
            },
        }
        i = i + 1;
    }
    Ok(Transformation::FileCopy)
}

/// A file of the build and what is done to it.
#[derive(Debug, PartialEq)]
pub struct Action {
    /// The file's path relative to the source root.
    pub file: String,
    pub transform: Transformation,
}

/// Decides, for each content file in walk order, what is done to it.
pub fn plan_actions(files: &Vec<String>, rules: &Vec<Rule>) -> (r: Result<Vec<Action>, PatternError>)
    ensures
        r matches Ok(acts) ==> {
            &&& acts@.len() == files@.len()
            &&& forall|i: int|
                0 <= i < files@.len() ==> {
                    &&& (#[trigger] acts@[i]).file@ == files@[i]@
                    &&& acts@[i].transform@ == resolve(rule_views(rules@), files@[i]@)
                }
        },
        patterns_compile(rule_views(rules@)) ==> r is Ok,
        r matches Err(e) ==> has_bad_pattern(rule_views(rules@), e.pattern@),
{
    let mut acts: Vec<Action> = Vec::new();
    let mut i: usize = 0;
    while i < files.len()
        invariant
            i <= files@.len(),
            acts@.len() == i,
            forall|k: int|
                0 <= k < i ==> {
                    &&& (#[trigger] acts@[k]).file@ == files@[k]@
                    &&& acts@[k].transform@ == resolve(rule_views(rules@), files@[k]@)
                },
        decreases files@.len() - i,
    {
        let t = match resolve_transform(rules, files[i].as_str()) {
            Ok(t) => t,
            Err(e) => return Err(e),
        };
        acts.push(Action { file: files[i].clone(), transform: t });
        i = i + 1;
    }
    Ok(acts)
}

/// One step of a build, for the caller to perform.
#[derive(Debug, PartialEq)]
pub enum Step {
    /// Copy the file `from` byte for byte to `to`, creating the missing
    /// directories above `to`.
    Copy { from: String, to: String },
    /// Move the file `from` to `to`: copy it, then remove `from`.
    Move { from: String, to: String },
    /// Run `program` with `args` and wait until it exits.
    Run { program: String, args: Vec<String> },
    /// Create the directory `path` and the missing ones above it.
    CreateDir { path: String },
}

/// The value of a [`Step`].
pub enum StepView {
    Copy { from: Seq<char>, to: Seq<char> },
    Move { from: Seq<char>, to: Seq<char> },
    Run { program: Seq<char>, args: Seq<Seq<char>> },
    CreateDir { path: Seq<char> },
}

impl View for Step {
    type V = StepView;

    open spec fn view(&self) -> StepView {
        match self {
            Step::Copy { from, to } => StepView::Copy { from: from@, to: to@ },
            Step::Move { from, to } => StepView::Move { from: from@, to: to@ },
            Step::Run { program, args } => StepView::Run { program: program@, args: texts(args@) },
            Step::CreateDir { path } => StepView::CreateDir { path: path@ },
        }
    }
}

/// The values of a list of steps.
pub open spec fn step_views(v: Seq<Step>) -> Seq<StepView> {
    v.map_values(|s: Step| s@)
}

/// Why a command line cannot be run.
#[derive(Debug, Clone, Copy, PartialEq, Eq)]
pub enum CommandError {
    /// A quoted argument is never closed.
    UnclosedQuote,
    /// The line holds no argument at all.
    Empty,
    /// `mv` is given fewer than two paths.
    MissingOperand,
}

/// The templates `a` with their placeholders filled in.
pub open spec fn expand_all(a: Seq<Seq<char>>, rel: Seq<char>, src: Seq<char>, tar: Seq<char>) -> Seq<Seq<char>> {
    a.map_values(|t: Seq<char>| expand(t, rel, src, tar))
}

/// The step that the command line `cmd` stands for, for the file at the
/// relative path `rel` under `src`, built into `tar`. The first argument
/// names the program and is taken as it is; the others are templates. The
/// program `mv` is built in: it moves its first path to its second.
pub open spec fn step_of(cmd: Seq<char>, rel: Seq<char>, src: Seq<char>, tar: Seq<char>) -> Result<StepView, CommandError> {
    match args_of(cmd) {
        None => Err(CommandError::UnclosedQuote),
        Some(a) => if a.len() == 0 {
            Err(CommandError::Empty)
        } else if a[0] == "mv"@ {
            if a.len() < 3 {
                Err(CommandError::MissingOperand)
            } else {
                Ok(StepView::Move { from: expand(a[1], rel, src, tar), to: expand(a[2], rel, src, tar) })
            }
        } else {
            Ok(StepView::Run { program: a[0], args: expand_all(a.drop_first(), rel, src, tar) })
        },
    }
}

/// The step that the command line `cmdline` stands for, for the file at the
/// relative path `file_rel` under `src_dir`, built into `tar_dir`.
pub fn command_step(cmdline: &str, file_rel: &str, src_dir: &str, tar_dir: &str) -> (r: Result<Step, CommandError>)
    ensures
        match step_of(cmdline@, file_rel@, src_dir@, tar_dir@) {
            Ok(sv) => r matches Ok(st) && st@ == sv,
            Err(e) => r == Err::<Step, CommandError>(e),
        },
{
    let args = match argenize(cmdline) {
        Ok(a) => a,
        Err(ArgError::UnclosedQuote) => return Err(CommandError::UnclosedQuote),
    };
    let ghost a = texts(args@);
    if args.len() == 0 {
        return Err(CommandError::Empty);
    }
    assert(a[0] == args@[0]@);
    if same_text(&args[0], "mv") {
        if args.len() < 3 {
            return Err(CommandError::MissingOperand);
        }
        let from = apply_holder(file_rel, src_dir, tar_dir, args[1].as_str());
        let to = apply_holder(file_rel, src_dir, tar_dir, args[2].as_str());
        Ok(Step::Move { from, to })
    } else {
        let ghost expected = expand_all(a.drop_first(), file_rel@, src_dir@, tar_dir@);
        let mut out: Vec<String> = Vec::new();
        let mut i: usize = 1;
        while i < args.len()
            invariant
                a == texts(args@),
                1 <= i <= args@.len(),
                texts(out@) == expected.subrange(0, i - 1),
                expected == expand_all(a.drop_first(), file_rel@, src_dir@, tar_dir@),
            decreases args@.len() - i,
        {
            let e = apply_holder(file_rel, src_dir, tar_dir, args[i].as_str());
            let ghost before = texts(out@);
            out.push(e);
            assert(texts(out@) =~= before.push(e@));
            assert(expected.subrange(0, i as int) =~= expected.subrange(0, i - 1).push(e@));
            i = i + 1;
        }
        assert(expected.subrange(0, args@.len() - 1) =~= expected);
        let program = args[0].clone();
        Ok(Step::Run { program, args: out })
    }
}

/// Copying the file at the relative path `rel` from under `src` to the same
/// place under `tar`.
pub open spec fn copy_of(rel: Seq<char>, src: Seq<char>, tar: Seq<char>) -> StepView {
    StepView::Copy { from: join(src, rel), to: join(tar, rel) }
}

/// The step that copies the file at the relative path `file_rel` from under
/// `src_dir` to the same place under `tar_dir`.
pub fn copy_file(file_rel: &str, src_dir: &str, tar_dir: &str) -> (r: Step)
    ensures
        r@ == copy_of(file_rel@, src_dir@, tar_dir@),
{
    let from = join_path(src_dir, file_rel);
    let to = join_path(tar_dir, file_rel);
    Step::Copy { from, to }
}

/// The steps that replicate a tree under `tar`: first each of its
/// directories `dirs`, then a copy of each of its files `files` from under
/// `src` (all relative paths).
pub open spec fn copy_dir_plan(src: Seq<char>, tar: Seq<char>, dirs: Seq<Seq<char>>, files: Seq<Seq<char>>) -> Seq<StepView> {
    dirs.map_values(|d: Seq<char>| StepView::CreateDir { path: join(tar, d) })
        + files.map_values(|f: Seq<char>| copy_of(f, src, tar))
}

/// The steps that replicate the tree under `src_dir`, whose directories are
/// `dirs` and whose files are `files` (relative paths), under `tar_dir`.
pub fn copy_dir(src_dir: &str, tar_dir: &str, dirs: &Vec<String>, files: &Vec<String>) -> (r: Vec<Step>)
    ensures
        step_views(r@) == copy_dir_plan(src_dir@, tar_dir@, texts(dirs@), texts(files@)),
{
    let mut out: Vec<Step> = Vec::new();
    let mut i: usize = 0;
    while i < dirs.len()
        invariant
            i <= dirs@.len(),
            out@.len() == i,
            forall|k: int| 0 <= k < i ==> (#[trigger] out@[k])@ == (StepView::CreateDir { path: join(tar_dir@, dirs@[k]@) }),
        decreases dirs@.len() - i,
    {
        let path = join_path(tar_dir, dirs[i].as_str());
        out.push(Step::CreateDir { path });
        i = i + 1;
    }
    let nd = dirs.len();
    let mut j: usize = 0;
    while j < files.len()
        invariant
            nd == dirs@.len(),
            j <= files@.len(),
            out@.len() == nd + j,
            forall|k: int| 0 <= k < nd ==> (#[trigger] out@[k])@ == (StepView::CreateDir { path: join(tar_dir@, dirs@[k]@) }),
            forall|k: int| 0 <= k < j ==> (#[trigger] out@[nd + k])@ == copy_of(files@[k]@, src_dir@, tar_dir@),
        decreases files@.len() - j,
    {
        out.push(copy_file(files[j].as_str(), src_dir, tar_dir));
        assert(out@[nd + j] == out@[out@.len() - 1]);
        j = j + 1;
    }
    let ghost plan = copy_dir_plan(src_dir@, tar_dir@, texts(dirs@), texts(files@));
    assert forall|k: int| 0 <= k < out@.len() implies step_views(out@)[k] == plan[k] by {
        if k >= nd {
            assert(out@[nd + (k - nd)] == out@[k]);
        }
    }
    assert(step_views(out@) =~= plan);
    out
}

/// The directories to create under `tar_dir` so that it has the
/// subdirectories `dirs` (relative paths) of the source tree.
pub fn clone_directory_structure(tar_dir: &str, dirs: &Vec<String>) -> (r: Vec<String>)
    ensures
        texts(r@) == dirs@.map_values(|d: String| join(tar_dir@, d@)),
{
    let mut out: Vec<String> = Vec::new();
    let mut i: usize = 0;
    while i < dirs.len()
        invariant
            i <= dirs@.len(),
            texts(out@) == dirs@.subrange(0, i as int).map_values(|d: String| join(tar_dir@, d@)),
        decreases dirs@.len() - i,
    {
        let d = join_path(tar_dir, dirs[i].as_str());
        let ghost before = texts(out@);
        out.push(d);
        assert(texts(out@) =~= before.push(d@));
        assert(dirs@.subrange(0, i + 1).map_values(|d: String| join(tar_dir@, d@)) =~= dirs@.subrange(0, i as int).map_values(|d: String| join(tar_dir@, d@)).push(d@));
        i = i + 1;
    }
    assert(dirs@.subrange(0, dirs@.len() as int) =~= dirs@);
    out
}

/// The steps of the command lines `cmds`, in order; the error is that of the
/// first line that stands for no step.
pub open spec fn steps_of_commands(cmds: Seq<Seq<char>>, rel: Seq<char>, src: Seq<char>, tar: Seq<char>) -> Result<Seq<StepView>, CommandError>
    decreases cmds.len(),
{
    if cmds.len() == 0 {
        Ok(Seq::empty())
    } else {
        match steps_of_commands(cmds.drop_last(), rel, src, tar) {
            Err(e) => Err(e),
            Ok(steps) => match step_of(cmds.last(), rel, src, tar) {
                Ok(st) => Ok(steps.push(st)),
                Err(e) => Err(e),
            },
        }
    }
}

/// The steps that carry out the transformation `t` of the file at the
/// relative path `rel`.
pub open spec fn steps_of_action(rel: Seq<char>, t: TransformView, src: Seq<char>, tar: Seq<char>) -> Result<Seq<StepView>, CommandError> {
    match t {
        TransformView::FileCopy => Ok(seq![copy_of(rel, src, tar)]),
        TransformView::Command(cmds) => steps_of_commands(cmds, rel, src, tar),
    }
}

/// The steps of a whole build: those of each content file in walk order, the
/// file's transformation decided by the rules.
pub open spec fn build_plan(files: Seq<Seq<char>>, rules: Seq<RuleView>, src: Seq<char>, tar: Seq<char>) -> Result<Seq<StepView>, CommandError>
    decreases files.len(),
{
    if files.len() == 0 {
        Ok(Seq::empty())
    } else {
        match build_plan(files.drop_last(), rules, src, tar) {
            Err(e) => Err(e),
            Ok(steps) => match steps_of_action(files.last(), resolve(rules, files.last()), src, tar) {
                Ok(more) => Ok(steps + more),
                Err(e) => Err(e),
            },
        }
    }
}

/// The steps that carry out one action.
pub fn action_steps(action: &Action, src_dir: &str, tar_dir: &str) -> (r: Result<Vec<Step>, CommandError>)
    ensures
        match steps_of_action(action.file@, action.transform@, src_dir@, tar_dir@) {
            Ok(sv) => r matches Ok(v) && step_views(v@) == sv,
            Err(e) => r == Err::<Vec<Step>, CommandError>(e),
        },
{
    match &action.transform {
        Transformation::FileCopy => {
            let v = vec![copy_file(action.file.as_str(), src_dir, tar_dir)];
            assert(step_views(v@) =~= seq![copy_of(action.file@, src_dir@, tar_dir@)]);
            Ok(v)
        },
        Transformation::Command(cmds) => {
            let ghost cs = texts(cmds@);
            let ghost rel = action.file@;
            let mut out: Vec<Step> = Vec::new();
            let mut i: usize = 0;
            assert(cs.subrange(0, 0) =~= Seq::<Seq<char>>::empty());
            assert(step_views(out@) =~= Seq::<StepView>::empty());
            while i < cmds.len()
                invariant
                    cs == texts(cmds@),
                    action.transform@ == TransformView::Command(cs),
                    rel == action.file@,
                    i <= cmds@.len(),
                    steps_of_commands(cs.subrange(0, i as int), rel, src_dir@, tar_dir@)
                        == Ok::<Seq<StepView>, CommandError>(step_views(out@)),
                decreases cmds@.len() - i,
            {
                let ghost prefix = cs.subrange(0, i + 1);
                assert(prefix.drop_last() =~= cs.subrange(0, i as int));
                assert(prefix.last() == cmds@[i as int]@);
                match command_step(cmds[i].as_str(), action.file.as_str(), src_dir, tar_dir) {
                    Ok(st) => {
                        let ghost before = step_views(out@);
                        out.push(st);
                        assert(step_views(out@) =~= before.push(st@));
                    },
                    Err(e) => {
                        proof {
                            lemma_commands_error(cs, i as int + 1, rel, src_dir@, tar_dir@, e);
                        }
                        return Err(e);
                    },
                }
                i = i + 1;
            }
            assert(cs.subrange(0, cmds@.len() as int) =~= cs);
            Ok(out)
        },
    }
}

/// An error among the first `k` command lines is the error of all of them.
proof fn lemma_commands_error(cmds: Seq<Seq<char>>, k: int, rel: Seq<char>, src: Seq<char>, tar: Seq<char>, e: CommandError)
    requires
        0 <= k <= cmds.len(),
        steps_of_commands(cmds.subrange(0, k), rel, src, tar) == Err::<Seq<StepView>, CommandError>(e),
    ensures
        steps_of_commands(cmds, rel, src, tar) == Err::<Seq<StepView>, CommandError>(e),
    decreases cmds.len() - k,
{
    if k < cmds.len() {
        assert(cmds.subrange(0, k + 1).drop_last() =~= cmds.subrange(0, k));
        lemma_commands_error(cmds, k + 1, rel, src, tar, e);
    } else {
        assert(cmds.subrange(0, k) =~= cmds);
    }
}

/// An error among the first `k` files is the error of the whole build.
proof fn lemma_plan_error(files: Seq<Seq<char>>, k: int, rules: Seq<RuleView>, src: Seq<char>, tar: Seq<char>, e: CommandError)
    requires
        0 <= k <= files.len(),
        build_plan(files.subrange(0, k), rules, src, tar) == Err::<Seq<StepView>, CommandError>(e),
    ensures
        build_plan(files, rules, src, tar) == Err::<Seq<StepView>, CommandError>(e),
    decreases files.len() - k,
{
    if k < files.len() {
        assert(files.subrange(0, k + 1).drop_last() =~= files.subrange(0, k));
        lemma_plan_error(files, k + 1, rules, src, tar, e);
    } else {
        assert(files.subrange(0, k) =~= files);
    }
}

/// Why a build cannot be planned.
#[derive(Debug, Clone, PartialEq, Eq)]
pub enum BuildError {
    /// A rule file cannot be read.
    Parse(crate::rules::ParseError),
    /// A rule's pattern cannot be compiled.
    Pattern(PatternError),
    /// A rule's command line stands for no step.
    Command(CommandError),
}

/// Plans the build of the content files `files` (relative paths, in walk
/// order) under the rules `rules`, from `src_dir` into `tar_dir`: the
/// transformation of every file is decided first, then the steps that carry
/// them out are listed in file order.
///
/// The plan is the one that the inputs determine, so the same inputs always
/// give the same plan; it fails on a pattern only where the regex engine
/// refuses one of the rules' patterns.
pub fn build_steps(files: &Vec<String>, rules: &Vec<Rule>, src_dir: &str, tar_dir: &str) -> (r: Result<Vec<Step>, BuildError>)
    ensures
        match r {
            Ok(v) => build_plan(texts(files@), rule_views(rules@), src_dir@, tar_dir@)
                == Ok::<Seq<StepView>, CommandError>(step_views(v@)),
            Err(BuildError::Command(e)) => build_plan(texts(files@), rule_views(rules@), src_dir@, tar_dir@)
                == Err::<Seq<StepView>, CommandError>(e),
            Err(BuildError::Pattern(e)) => has_bad_pattern(rule_views(rules@), e.pattern@),
            Err(BuildError::Parse(_)) => false,
        },
        patterns_compile(rule_views(rules@)) ==> !(r matches Err(BuildError::Pattern(_))),
{
    let acts = match plan_actions(files, rules) {
        Ok(a) => a,
        Err(e) => return Err(BuildError::Pattern(e)),
    };
    let ghost fs = texts(files@);
    let ghost rs = rule_views(rules@);
    let mut out: Vec<Step> = Vec::new();
    let mut i: usize = 0;
    assert(fs.subrange(0, 0) =~= Seq::<Seq<char>>::empty());
    assert(step_views(out@) =~= Seq::<StepView>::empty());
    while i < acts.len()
        invariant
            fs == texts(files@),
            rs == rule_views(rules@),
            acts@.len() == files@.len(),
            forall|k: int|
                0 <= k < files@.len() ==> {
                    &&& (#[trigger] acts@[k]).file@ == files@[k]@
                    &&& acts@[k].transform@ == resolve(rs, files@[k]@)
                },
            i <= acts@.len(),
            build_plan(fs.subrange(0, i as int), rs, src_dir@, tar_dir@)
                == Ok::<Seq<StepView>, CommandError>(step_views(out@)),
        decreases acts@.len() - i,
    {
        let ghost prefix = fs.subrange(0, i + 1);
        assert(prefix.drop_last() =~= fs.subrange(0, i as int));
        assert(prefix.last() == files@[i as int]@);
        assert(acts@[i as int].file@ == files@[i as int]@);
        match action_steps(&acts[i], src_dir, tar_dir) {
            Ok(mut more) => {
                let ghost before = step_views(out@);
                let ghost added = step_views(more@);
                out.append(&mut more);
                assert(step_views(out@) =~= before + added);
            },
            Err(e) => {
                proof {
                    lemma_plan_error(fs, i as int + 1, rs, src_dir@, tar_dir@, e);
                }
                return Err(BuildError::Command(e));
            },
        }
        i = i + 1;
    }
    assert(fs.subrange(0, files@.len() as int) =~= fs);
    Ok(out)
}

/// The steps that replicate the staged tree (directories `dirs`, files
/// `files`, relative paths under `staging`) under each of `targets`, target
/// after target.
pub open spec fn fan_out_plan(staging: Seq<char>, targets: Seq<Seq<char>>, dirs: Seq<Seq<char>>, files: Seq<Seq<char>>) -> Seq<StepView>
    decreases targets.len(),
{
    if targets.len() == 0 {
        Seq::empty()
    } else {
        fan_out_plan(staging, targets.drop_last(), dirs, files) + copy_dir_plan(staging, targets.last(), dirs, files)
    }
}

/// The steps that replicate the staged tree (directories `dirs`, files
/// `files`, relative paths under `staging`) under each of `targets`. The
/// build itself ran once, into `staging`; each target only receives a copy of
/// its result.
pub fn fan_out(staging: &str, targets: &Vec<String>, dirs: &Vec<String>, files: &Vec<String>) -> (r: Vec<Step>)
    ensures
        step_views(r@) == fan_out_plan(staging@, texts(targets@), texts(dirs@), texts(files@)),
{
    let ghost ts = texts(targets@);
    let ghost ds = texts(dirs@);
    let ghost fs = texts(files@);
    let mut out: Vec<Step> = Vec::new();
    let mut i: usize = 0;
    assert(ts.subrange(0, 0) =~= Seq::<Seq<char>>::empty());
    assert(step_views(out@) =~= Seq::<StepView>::empty());
    while i < targets.len()
        invariant
            ts == texts(targets@),
            ds == texts(dirs@),
            fs == texts(files@),
            i <= targets@.len(),
            step_views(out@) == fan_out_plan(staging@, ts.subrange(0, i as int), ds, fs),
        decreases targets@.len() - i,
    {
        let ghost prefix = ts.subrange(0, i + 1);
        assert(prefix.drop_last() =~= ts.subrange(0, i as int));
        assert(prefix.last() == targets@[i as int]@);
        let mut copies = copy_dir(staging, targets[i].as_str(), dirs, files);
        let ghost before = step_views(out@);
        let ghost added = step_views(copies@);
        out.append(&mut copies);
        assert(step_views(out@) =~= before + added);
        i = i + 1;
    }
    assert(ts.subrange(0, targets@.len() as int) =~= ts);
    out
}

/// The arguments of a run command: each that is exactly `%{}` stands for the
/// staging directory.
pub open spec fn run_arg(p: Seq<char>, staging: Seq<char>) -> Seq<char> {
    if p == "%{}"@ {
        staging
    } else {
        p
    }
}

/// The arguments handed to the program that a run command launches after the
/// build: `params`, with each that is exactly `%{}` replaced by `staging`.
pub fn run_args(params: &Vec<String>, staging: &str) -> (r: Vec<String>)
    ensures
        texts(r@) == texts(params@).map_values(|p: Seq<char>| run_arg(p, staging@)),
{
    let mut out: Vec<String> = Vec::new();
    let mut i: usize = 0;
    while i < params.len()
        invariant
            i <= params@.len(),
            out@.len() == i,
            forall|k: int| 0 <= k < i ==> (#[trigger] out@[k])@ == run_arg(params@[k]@, staging@),
        decreases params@.len() - i,
    {
        let a = if same_text(&params[i], "%{}") {
            staging.to_owned()
        } else {
            params[i].clone()
        };
        out.push(a);
        i = i + 1;
    }
    assert(texts(out@) =~= texts(params@).map_values(|p: Seq<char>| run_arg(p, staging@)));
    out
}

/// First match wins: when the first two rules both match a file, the file
/// gets the transformation of the first.
pub proof fn lemma_first_match_wins(rules: Seq<RuleView>, path: Seq<char>)
    requires
        rules.len() >= 2,
        glob_matches(rules[0].pattern, path),
        glob_matches(rules[1].pattern, path),
    ensures
        resolve(rules, path) == rules[0].transform,
{
}

/// The file gets the transformation of the first rule that matches it, be it
/// at any place in the list.
pub proof fn lemma_resolve_first_matching(rules: Seq<RuleView>, path: Seq<char>, i: int)
    requires
        0 <= i < rules.len(),
        glob_matches(rules[i].pattern, path),
        forall|j: int| 0 <= j < i ==> !glob_matches(#[trigger] rules[j].pattern, path),
    ensures
        resolve(rules, path) == rules[i].transform,
    decreases i,
{
    if i > 0 {
        assert forall|j: int| 0 <= j < i - 1 implies !glob_matches(#[trigger] rules.drop_first()[j].pattern, path) by {
            assert(rules.drop_first()[j] == rules[j + 1]);
        }
        assert(!glob_matches(rules[0].pattern, path));
        lemma_resolve_first_matching(rules.drop_first(), path, i - 1);
    }
}

/// Default fallthrough: a file that no rule matches is copied through, byte
/// for byte, to the same relative path under the target.
pub proof fn lemma_unmatched_is_copied(rules: Seq<RuleView>, rel: Seq<char>, src: Seq<char>, tar: Seq<char>)
    requires
        forall|j: int| 0 <= j < rules.len() ==> !glob_matches(#[trigger] rules[j].pattern, rel),
    ensures
        resolve(rules, rel) == TransformView::FileCopy,
        steps_of_action(rel, resolve(rules, rel), src, tar)
            == Ok::<Seq<StepView>, CommandError>(seq![StepView::Copy { from: join(src, rel), to: join(tar, rel) }]),
    decreases rules.len(),
{
    if rules.len() > 0 {
        assert(!glob_matches(rules[0].pattern, rel));
        assert forall|j: int| 0 <= j < rules.len() - 1 implies !glob_matches(#[trigger] rules.drop_first()[j].pattern, rel) by {
            assert(rules.drop_first()[j] == rules[j + 1]);
        }
        lemma_unmatched_is_copied(rules.drop_first(), rel, src, tar);
    }
}

/// First match wins in a build: a file that the first two rules both match
/// contributes exactly the steps of the first rule's command lines, after the
/// steps of the files found before it.
pub proof fn lemma_build_first_match_wins(files: Seq<Seq<char>>, f: Seq<char>, rules: Seq<RuleView>, src: Seq<char>, tar: Seq<char>)
    requires
        rules.len() >= 2,
        glob_matches(rules[0].pattern, f),
        glob_matches(rules[1].pattern, f),
    ensures
        build_plan(files.push(f), rules, src, tar) == match build_plan(files, rules, src, tar) {
            Err(e) => Err(e),
            Ok(steps) => match steps_of_action(f, rules[0].transform, src, tar) {
                Ok(more) => Ok(steps + more),
                Err(e) => Err(e),
            },
        },
{
    assert(files.push(f).drop_last() =~= files);
    lemma_first_match_wins(rules, f);
}

/// Default fallthrough in a build: a file that no rule matches contributes
/// exactly one step, the copy of its bytes to the same relative path under
/// the target, after the steps of the files found before it.
pub proof fn lemma_build_unmatched_is_copied(files: Seq<Seq<char>>, f: Seq<char>, rules: Seq<RuleView>, src: Seq<char>, tar: Seq<char>)
    requires
        forall|j: int| 0 <= j < rules.len() ==> !glob_matches(#[trigger] rules[j].pattern, f),
    ensures
        build_plan(files.push(f), rules, src, tar) == match build_plan(files, rules, src, tar) {
            Err(e) => Err(e),
            Ok(steps) => Ok::<Seq<StepView>, CommandError>(steps.push(StepView::Copy { from: join(src, f), to: join(tar, f) })),
        },
{
    assert(files.push(f).drop_last() =~= files);
    lemma_unmatched_is_copied(rules, f, src, tar);
    if let Ok(steps) = build_plan(files, rules, src, tar) {
        assert(steps + seq![StepView::Copy { from: join(src, f), to: join(tar, f) }]
            =~= steps.push(StepView::Copy { from: join(src, f), to: join(tar, f) }));
    }
}

/// Fan-out consistency: the steps for the target `targets[t]` are exactly
/// the replication of the staged tree under that target, the same for every
/// target but for the target's own root: the same directories, and copies of
/// the same staged files to the same relative paths.
pub proof fn lemma_fan_out_consistent(staging: Seq<char>, targets: Seq<Seq<char>>, dirs: Seq<Seq<char>>, files: Seq<Seq<char>>, t: int)
    requires
        0 <= t < targets.len(),
    ensures
        fan_out_plan(staging, targets, dirs, files).len() == targets.len() * (dirs.len() + files.len()),
        fan_out_plan(staging, targets, dirs, files).subrange(
            t * (dirs.len() + files.len()),
            t * (dirs.len() + files.len()) + dirs.len() + files.len(),
        ) == copy_dir_plan(staging, targets[t], dirs, files),
    decreases targets.len(),
{
    let m = dirs.len() + files.len();
    let prev = targets.drop_last();
    lemma_fan_out_len(staging, targets, dirs, files);
    lemma_fan_out_len(staging, prev, dirs, files);
    let whole = fan_out_plan(staging, targets, dirs, files);
    let before = fan_out_plan(staging, prev, dirs, files);
    assert(whole == before + copy_dir_plan(staging, targets.last(), dirs, files));
    if t < targets.len() - 1 {
        lemma_fan_out_consistent(staging, prev, dirs, files, t);
        assert(t * m + m <= prev.len() * m) by (nonlinear_arith)
            requires
                t < prev.len(),
                m >= 0,
        ;
        assert(t * m >= 0) by (nonlinear_arith)
            requires
                t >= 0,
                m >= 0,
        ;
        assert(whole.subrange(t * m, t * m + m) =~= before.subrange(t * m, t * m + m));
        assert(prev[t] == targets[t]);
    } else {
        assert(t * m == prev.len() * m);
        assert(whole.subrange(t * m, t * m + m) =~= copy_dir_plan(staging, targets.last(), dirs, files));
    }
}

proof fn lemma_fan_out_len(staging: Seq<char>, targets: Seq<Seq<char>>, dirs: Seq<Seq<char>>, files: Seq<Seq<char>>)
    ensures
        fan_out_plan(staging, targets, dirs, files).len() == targets.len() * (dirs.len() + files.len()),
    decreases targets.len(),
{
    if targets.len() > 0 {
        lemma_fan_out_len(staging, targets.drop_last(), dirs, files);
        let m = dirs.len() + files.len();
        assert((targets.len() - 1) * m + m == targets.len() * m) by (nonlinear_arith);
    }
}

} // verus!
