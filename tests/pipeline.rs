use meku::args::{argenize, ArgError};
use meku::engine::{
    action_steps, build_steps, clone_directory_structure, command_step, copy_dir, copy_file,
    fan_out, is_rule_file, partition_files, plan_actions, resolve_transform, run_args, Action,
    BuildError, CommandError, Step,
};
use meku::glob::{compile_pattern, pattern_match, push_escaped};
use meku::paths::{file_name_of, file_stem, join_path, without_extension};
use meku::placeholder::{apply_holder, replace_all};
use meku::rules::{count_nesting_marks, load_rules, parse_rule, parse_rules, rules_from_yaml, ParseError, Rule, Transformation, YamlNode};

fn strings(v: &[&str]) -> Vec<String> {
    v.iter().map(|s| s.to_string()).collect()
}

fn command_rule(pattern: &str, cmds: &[&str]) -> Rule {
    Rule { pattern: pattern.to_string(), transform: Transformation::Command(strings(cmds)) }
}

#[test]
fn test_parse_rule_command() {
    let testcmd = "moonc file1 file2";
    let map = vec![(
        YamlNode::String("commands".to_string()),
        YamlNode::Array(vec![YamlNode::String(testcmd.to_string())]),
    )];

    let key = YamlNode::String("*.moon".to_string());
    let value = YamlNode::Hash(map);

    let expected = Rule {
        pattern: "*.moon".to_string(),
        transform: Transformation::Command(vec![testcmd.to_string()]),
    };
    assert_eq!(expected, parse_rule(&key, &value).unwrap());
}

#[test]
fn test_pattern_match_without_stars() {
    assert_eq!(true, pattern_match("main.moon", "main.moon").unwrap());
    assert_eq!(false, pattern_match("main.moon", "main.c").unwrap());
}

#[test]
fn test_pattern_match_single_star() {
    assert_eq!(true, pattern_match("*.moon", "main.moon").unwrap());
    assert_eq!(false, pattern_match("*.moon", "main.c").unwrap());
    assert_eq!(false, pattern_match("*.moon", "a.moon.c").unwrap());
}

#[test]
fn test_pattern_match_single_star_with_previous_folders() {
    assert_eq!(false, pattern_match("*.moon", "src/main.moon").unwrap());
    assert_eq!(false, pattern_match("*.moon", "src/main.c").unwrap());
    assert_eq!(true, pattern_match("src/*.moon", "src/main.moon").unwrap());
    assert_eq!(false, pattern_match("src/*.moon", "src/main.c").unwrap());
}

#[test]
fn test_pattern_match_double_star() {
    assert_eq!(true, pattern_match("**.moon", "src/main.moon").unwrap());
    assert_eq!(false, pattern_match("**.moon", "src/main.moon.c").unwrap());
    assert_eq!(true, pattern_match("**.moon", "main.moon").unwrap());
    assert_eq!(false, pattern_match("**.moon", "src/main.c").unwrap());
}

#[test]
fn test_argenize() {
    assert_eq!(vec!("a", "b", "c"), argenize("a b  c").unwrap());
    assert_eq!(vec!("a", "b c", "d"), argenize("a \"b c\"  d").unwrap());
}

#[test]
fn argenize_edges() {
    assert_eq!(Vec::<String>::new(), argenize("").unwrap());
    assert_eq!(Vec::<String>::new(), argenize("   ").unwrap());
    assert_eq!(vec!("x"), argenize("  x  ").unwrap());
    assert_eq!(vec!("", "y"), argenize("\"\" y").unwrap());
    assert_eq!(vec!("a", "b"), argenize("\"a\"b").unwrap());
    assert_eq!(vec!("a\"b"), argenize("a\"b").unwrap());
    assert_eq!(vec!("é", "ü ö"), argenize("é \"ü ö\"").unwrap());
    assert_eq!(Err(ArgError::UnclosedQuote), argenize("a \"b c"));
}

#[test]
fn literal_patterns_match_only_themselves() {
    assert!(pattern_match("a+b", "a+b").unwrap());
    assert!(!pattern_match("a+b", "aab").unwrap());
    assert!(pattern_match("(x)[y].z", "(x)[y].z").unwrap());
    assert!(!pattern_match("a.c", "abc").unwrap());
    assert!(pattern_match("", "").unwrap());
    assert!(!pattern_match("", "a").unwrap());
    assert!(pattern_match("dir\\file", "dir\\file").unwrap());
}

#[test]
fn star_edges() {
    assert!(pattern_match("src/*", "src/main.moon").unwrap());
    assert!(!pattern_match("src/*", "src/a/main.moon").unwrap());
    assert!(pattern_match("src/**", "src/a/main.moon").unwrap());
    assert!(pattern_match("*", "").unwrap());
    assert!(!pattern_match("*.moon", "src\\main.moon").unwrap());
    assert!(pattern_match("a/*/c", "a/b/c").unwrap());
    assert!(!pattern_match("a/*/c", "a/b/x/c").unwrap());
}

#[test]
fn compiled_patterns() {
    assert_eq!("^[^\\\\/]*\\.moon$", compile_pattern("*.moon"));
    assert_eq!("^.*\\.moon$", compile_pattern("**.moon"));
    assert_eq!("^src/[^\\\\/]*$", compile_pattern("src/*"));
    assert_eq!("^a\\+b$", compile_pattern("a+b"));
    assert_eq!("^$", compile_pattern(""));
}

#[test]
fn escaping_characters() {
    let mut s = String::from("^");
    push_escaped(&mut s, '.');
    push_escaped(&mut s, 'a');
    push_escaped(&mut s, '$');
    assert_eq!("^\\.a\\$", s);
}

#[test]
fn path_pieces() {
    assert_eq!("src/a.moon", join_path("src", "a.moon"));
    assert_eq!("src/a.moon", join_path("src/", "a.moon"));
    assert_eq!("a.moon", join_path("", "a.moon"));
    assert_eq!("a.tar", file_stem("/x/y/a.tar.gz"));
    assert_eq!(".bashrc", file_stem("/home/.bashrc"));
    assert_eq!("b", file_stem("a/b."));
    assert_eq!("main", file_stem("main"));
    assert_eq!("/x/y/a.tar", without_extension("/x/y/a.tar.gz"));
    assert_eq!("dir.d/file", without_extension("dir.d/file"));
    assert_eq!("c.txt", file_name_of("a/b/c.txt"));
}

#[test]
fn replacing_text() {
    assert_eq!("x-x-", replace_all("ab-ab-", "ab", "x"));
    assert_eq!("aa", replace_all("aaaa", "aa", "a"));
    assert_eq!("nothing", replace_all("nothing", "zz", "y"));
}

#[test]
fn placeholder_expansion() {
    assert_eq!("a", apply_holder("a.moon", "src", "/out", "%{src_rel_noext}"));
    assert_eq!("/out", apply_holder("a.moon", "src", "/out", "%{tar_dir}"));
    assert_eq!("src/a.moon", apply_holder("a.moon", "src", "/out", "%{src_file}"));
    assert_eq!("a", apply_holder("d/a.moon", "src", "/out", "%{src_file_stem}"));
    assert_eq!("src/d/a", apply_holder("d/a.moon", "src", "/out", "%{src_file_noext}"));
    assert_eq!(
        "/out/d/a.lua and /out/d/a.lua %{other}",
        apply_holder("d/a.moon", "src", "/out", "%{tar_dir}/%{src_rel_noext}.lua and %{tar_dir}/%{src_rel_noext}.lua %{other}")
    );
}

#[test]
fn rule_files_are_recognised() {
    assert!(is_rule_file("meku.yml"));
    assert!(is_rule_file("sub/dir/meku.yml"));
    assert!(!is_rule_file("meku.yml.bak"));
    assert!(!is_rule_file("notmeku.yml"));
    let (rule_files, content) = partition_files(&strings(&["a.moon", "meku.yml", "b/meku.yml", "b/c.txt"]));
    assert_eq!(strings(&["meku.yml", "b/meku.yml"]), rule_files);
    assert_eq!(strings(&["a.moon", "b/c.txt"]), content);
}

#[test]
fn first_match_wins() {
    let rules = vec![command_rule("*.moon", &["first"]), command_rule("**.moon", &["second"])];
    assert_eq!(Transformation::Command(strings(&["first"])), resolve_transform(&rules, "a.moon").unwrap());
    assert_eq!(Transformation::Command(strings(&["second"])), resolve_transform(&rules, "d/a.moon").unwrap());
    assert_eq!(Transformation::FileCopy, resolve_transform(&rules, "a.txt").unwrap());
    assert_eq!(Transformation::FileCopy, resolve_transform(&Vec::new(), "a.moon").unwrap());
}

#[test]
fn unmatched_files_are_copied() {
    let rules = vec![command_rule("*.moon", &["moonc %{src_file}"])];
    let acts = plan_actions(&strings(&["notes/readme.txt"]), &rules).unwrap();
    assert_eq!(vec![Action { file: "notes/readme.txt".to_string(), transform: Transformation::FileCopy }], acts);
    let steps = action_steps(&acts[0], "src", "out").unwrap();
    assert_eq!(
        vec![Step::Copy { from: "src/notes/readme.txt".to_string(), to: "out/notes/readme.txt".to_string() }],
        steps
    );
}

#[test]
fn command_steps() {
    assert_eq!(
        Ok(Step::Run { program: "moonc".to_string(), args: strings(&["src/a.moon", "/out/a.lua"]) }),
        command_step("moonc %{src_file} %{tar_dir}/%{src_rel_noext}.lua", "a.moon", "src", "/out")
    );
    assert_eq!(
        Ok(Step::Move { from: "/out/a.tmp".to_string(), to: "/out/a.lua".to_string() }),
        command_step("mv %{tar_dir}/a.tmp %{tar_dir}/%{src_rel_noext}.lua", "a.moon", "src", "/out")
    );
    assert_eq!(
        Ok(Step::Run { program: "%{src_file}".to_string(), args: vec![] }),
        command_step("%{src_file}", "a.moon", "src", "/out")
    );
    assert_eq!(Err(CommandError::MissingOperand), command_step("mv onlyone", "a.moon", "src", "/out"));
    assert_eq!(Err(CommandError::Empty), command_step("   ", "a.moon", "src", "/out"));
    assert_eq!(Err(CommandError::UnclosedQuote), command_step("echo \"open", "a.moon", "src", "/out"));
}

#[test]
fn rule_file_text() {
    let text = "\"*.moon\":\n  commands:\n    - \"moonc %{src_file}\"\n    - \"echo done\"\n\"*.txt\":\n  commands: []\n";
    let rules = parse_rules(text).unwrap();
    assert_eq!(
        vec![command_rule("*.moon", &["moonc %{src_file}", "echo done"]), command_rule("*.txt", &[])],
        rules
    );
}

#[test]
fn rule_file_errors() {
    assert_eq!(Err(ParseError::Syntax), parse_rules("\"*.moon\": [unclosed"));
    assert_eq!(Err(ParseError::NotAMapping), parse_rules(""));
    assert_eq!(Err(ParseError::NotAMapping), parse_rules("- a\n- b\n"));
    assert_eq!(Err(ParseError::PatternNotString), parse_rules("3:\n  commands: [a]\n"));
    assert_eq!(Err(ParseError::MissingCommands), parse_rules("\"*.moon\":\n  other: [a]\n"));
    assert_eq!(Err(ParseError::MissingCommands), parse_rules("\"*.moon\":\n  commands: a\n"));
    assert_eq!(Err(ParseError::CommandNotString), parse_rules("\"*.moon\":\n  commands: [[a]]\n"));
    assert_eq!(Err(ParseError::NotAMapping), rules_from_yaml(&YamlNode::Null));
    assert_eq!(Err(ParseError::NotAMapping), parse_rules("[[[[a]]]]"));
    assert_eq!(Err(ParseError::TooDeep), parse_rules(&"[".repeat(100_000)));
    assert_eq!(Err(ParseError::TooDeep), parse_rules(&"- ".repeat(600)));
    assert_eq!(Err(ParseError::TooDeep), load_rules(&strings(&["\"*.a\": {commands: [x]}", &"{".repeat(513)])));
    assert_eq!(512, count_nesting_marks(&"-".repeat(512)));
    assert_eq!(3, count_nesting_marks("a: [b, -c]"));
}

#[test]
fn rule_files_concatenate() {
    let texts = strings(&["\"*.a\":\n  commands: [x]\n", "\"*.a\":\n  commands: [y]\n"]);
    let rules = load_rules(&texts).unwrap();
    assert_eq!(vec![command_rule("*.a", &["x"]), command_rule("*.a", &["y"])], rules);
    assert_eq!(Transformation::Command(strings(&["x"])), resolve_transform(&rules, "f.a").unwrap());
}

#[test]
fn end_to_end_plan() {
    let walked = strings(&["main.moon", "meku.yml", "readme.txt"]);
    let (rule_files, content) = partition_files(&walked);
    assert_eq!(strings(&["meku.yml"]), rule_files);
    let texts = strings(&["\"*.moon\": {commands: [\"echo %{src_file}\"]}\n"]);
    let rules = load_rules(&texts).unwrap();
    let steps = build_steps(&content, &rules, "/work/src", "out").unwrap();
    assert_eq!(
        vec![
            Step::Run { program: "echo".to_string(), args: strings(&["/work/src/main.moon"]) },
            Step::Copy { from: "/work/src/readme.txt".to_string(), to: "out/readme.txt".to_string() },
        ],
        steps
    );
}

#[test]
fn build_plan_errors() {
    let rules = vec![command_rule("*.moon", &["echo \"open"])];
    assert_eq!(
        Err(BuildError::Command(CommandError::UnclosedQuote)),
        build_steps(&strings(&["a.moon"]), &rules, "src", "out")
    );
    assert_eq!(Ok(vec![]), build_steps(&strings(&["a.txt"]), &vec![command_rule("*.txt", &[])], "src", "out"));
}

#[test]
fn same_plan_twice() {
    let rules = vec![command_rule("**.moon", &["moonc %{src_file}"])];
    let files = strings(&["a.moon", "b/c.moon", "d.txt"]);
    assert_eq!(build_steps(&files, &rules, "s", "t"), build_steps(&files, &rules, "s", "t"));
}

#[test]
fn copies_and_fan_out() {
    let files = strings(&["a.txt", "d/b.lua"]);
    assert_eq!(
        Step::Copy { from: "s/a.txt".to_string(), to: "t/a.txt".to_string() },
        copy_file("a.txt", "s", "t")
    );
    let dirs = strings(&["d", "empty"]);
    let one = copy_dir("/tmp/stage", "t1", &dirs, &files);
    assert_eq!(
        vec![
            Step::CreateDir { path: "t1/d".to_string() },
            Step::CreateDir { path: "t1/empty".to_string() },
            Step::Copy { from: "/tmp/stage/a.txt".to_string(), to: "t1/a.txt".to_string() },
            Step::Copy { from: "/tmp/stage/d/b.lua".to_string(), to: "t1/d/b.lua".to_string() },
        ],
        one
    );
    let all = fan_out("/tmp/stage", &strings(&["t1", "t2"]), &dirs, &files);
    assert_eq!(
        vec![
            Step::CreateDir { path: "t1/d".to_string() },
            Step::CreateDir { path: "t1/empty".to_string() },
            Step::Copy { from: "/tmp/stage/a.txt".to_string(), to: "t1/a.txt".to_string() },
            Step::Copy { from: "/tmp/stage/d/b.lua".to_string(), to: "t1/d/b.lua".to_string() },
            Step::CreateDir { path: "t2/d".to_string() },
            Step::CreateDir { path: "t2/empty".to_string() },
            Step::Copy { from: "/tmp/stage/a.txt".to_string(), to: "t2/a.txt".to_string() },
            Step::Copy { from: "/tmp/stage/d/b.lua".to_string(), to: "t2/d/b.lua".to_string() },
        ],
        all
    );
    assert_eq!(Vec::<Step>::new(), fan_out("/tmp/stage", &Vec::new(), &dirs, &files));
    assert_eq!(strings(&["out/d", "out/d/e"]), clone_directory_structure("out", &strings(&["d", "d/e"])));
}

#[test]
fn run_arguments() {
    assert_eq!(
        strings(&["-v", "/tmp/stage", "%{}x"]),
        run_args(&strings(&["-v", "%{}", "%{}x"]), "/tmp/stage")
    );
}
