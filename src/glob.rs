//! Glob patterns over relative paths.
//!
//! A pattern is compiled into an anchored regular expression: `*` stands for
//! any run of characters within one path segment, `**` for any run of
//! characters across segments, and every other character stands for itself.
//! Unlike a plain pass-through, every character that the regex syntax treats
//! as special is escaped, so a pattern without `*` matches exactly the path
//! that is spelled the same way.

use vstd::prelude::*;
use crate::paths::chars_of;

verus! {

/// Relies on `String::push`: the character is appended at the end.
pub assume_specification[ std::string::String::push ](s: &mut std::string::String, ch: char)
    ensures
        final(s)@ == old(s)@.push(ch),
;

/// The characters that the regex syntax gives a meaning of its own (those
/// that `regex_syntax::is_meta_character` lists); after a `\` each of them
/// stands for itself.
pub open spec fn is_meta(c: char) -> bool {
    c == '\\' || c == '.' || c == '+' || c == '*' || c == '?' || c == '(' || c == ')'
        || c == '|' || c == '[' || c == ']' || c == '{' || c == '}' || c == '^' || c == '$'
        || c == '#' || c == '&' || c == '-' || c == '~'
}

/// The regex text that matches the character `c` literally.
pub open spec fn escaped(c: char) -> Seq<char> {
    if is_meta(c) {
        seq!['\\', c]
    } else {
        seq![c]
    }
}

/// The regex text that matches the text `s` literally.
pub open spec fn escaped_text(s: Seq<char>) -> Seq<char>
    decreases s.len(),
{
    if s.len() == 0 {
        Seq::empty()
    } else {
        escaped(s[0]) + escaped_text(s.drop_first())
    }
}

/// A regex that matches exactly the text `s`.
pub open spec fn anchored_literal(s: Seq<char>) -> Seq<char> {
    seq!['^'] + escaped_text(s) + seq!['$']
}

/// Any run of characters that holds no path separator.
pub open spec fn one_segment() -> Seq<char> {
    seq!['[', '^', '\\', '\\', '/', ']', '*']
}

/// Any run of characters.
pub open spec fn any_segments() -> Seq<char> {
    seq!['.', '*']
}

/// The regex body for the rest `p` of a pattern; `pending` tells whether a
/// single `*` was read just before it and is not yet resolved.
pub open spec fn glob_body(p: Seq<char>, pending: bool) -> Seq<char>
    decreases p.len(),
{
    if p.len() == 0 {
        if pending {
            one_segment()
        } else {
            Seq::empty()
        }
    } else if p[0] == '*' {
        if pending {
            any_segments() + glob_body(p.drop_first(), false)
        } else {
            glob_body(p.drop_first(), true)
        }
    } else {
        let star: Seq<char> = if pending {
            one_segment()
        } else {
            Seq::empty()
        };
        star + escaped(p[0]) + glob_body(p.drop_first(), false)
    }
}

/// The anchored regex that a glob pattern compiles to.
pub open spec fn glob_regex(pattern: Seq<char>) -> Seq<char> {
    seq!['^'] + glob_body(pattern, false) + seq!['$']
}

/// Whether the regex text `re` matches somewhere in `text`, as the regex
/// engine decides it. For an anchored regex such as a compiled glob pattern,
/// that is a match of the whole text.
pub uninterp spec fn regex_accepts(re: Seq<char>, text: Seq<char>) -> bool;

/// Whether the regex engine compiles the regex text `re`.
pub uninterp spec fn regex_compiles(re: Seq<char>) -> bool;

/// Whether a glob pattern matches a path.
pub open spec fn glob_matches(pattern: Seq<char>, path: Seq<char>) -> bool {
    regex_accepts(glob_regex(pattern), path)
}

/// The pattern could not be compiled into a regex (the regex engine refused
/// it, for instance for its size).
#[derive(Debug, Clone, PartialEq, Eq)]
pub struct PatternError {
    pub pattern: String,
}

#[verifier::external_type_specification]
#[verifier::external_body]
pub struct ExRegexError(regex::Error);

/// Relies on `regex::Regex::new`, which compiles `re` or reports why it
/// cannot, and `regex::Regex::is_match`, which tells whether the compiled
/// regex matches somewhere in `text`. The regex syntax documents that `^` and
/// `$` (without the multi-line flag) match only at the start and the end of
/// the text, and that a meta character after `\` matches itself; hence an
/// anchored run of escaped characters matches that text and no other.
/// Whether `Regex::new` succeeds depends on the regex text alone.
#[verifier::external_body]
fn regex_is_match(re: &str, text: &str) -> (r: Result<bool, regex::Error>)
    ensures
        r is Ok <==> regex_compiles(re@),
        r matches Ok(b) ==> b == regex_accepts(re@, text@),
        r matches Ok(b) ==> forall|s: Seq<char>|
            #[trigger] anchored_literal(s) == re@ ==> (b <==> text@ == s),
{
    match regex::Regex::new(re) {
        Ok(x) => Ok(x.is_match(text)),
        Err(e) => Err(e),
    }
}

/// Appends to `strng` the regex text that matches `c` literally.
pub fn push_escaped(strng: &mut String, c: char)
    ensures
        final(strng)@ == old(strng)@ + escaped(c),
{
    if c == '\\' || c == '.' || c == '+' || c == '*' || c == '?' || c == '(' || c == ')'
        || c == '|' || c == '[' || c == ']' || c == '{' || c == '}' || c == '^' || c == '$'
        || c == '#' || c == '&' || c == '-' || c == '~' {
        strng.push('\\');
    }
    strng.push(c);
    assert(final(strng)@ =~= old(strng)@ + escaped(c));
}

fn push_one_segment(strng: &mut String)
    ensures
        final(strng)@ == old(strng)@ + one_segment(),
{
    strng.push('[');
    strng.push('^');
    strng.push('\\');
    strng.push('\\');
    strng.push('/');
    strng.push(']');
    strng.push('*');
    assert(final(strng)@ =~= old(strng)@ + one_segment());
}

/// Compiles a glob pattern into its anchored regex.
pub fn compile_pattern(pattern: &str) -> (r: String)
    ensures
        r@ == glob_regex(pattern@),
{
    let chars = chars_of(pattern);
    let n = chars.len();
    let mut out = String::new();
    out.push('^');
    let mut last_was_star = false;
    let mut i: usize = 0;
    assert(pattern@.subrange(0, n as int) =~= pattern@);
    while i < n
        invariant
            n == pattern@.len(),
            chars@ == pattern@,
            i <= n,
            seq!['^'] + glob_body(pattern@, false) =~= out@ + glob_body(
                pattern@.subrange(i as int, n as int),
                last_was_star,
            ),
        decreases n - i,
    {
        let ch = chars[i];
        let ghost rest = pattern@.subrange(i as int, n as int);
        let ghost before = out@;
        assert(rest.drop_first() =~= pattern@.subrange(i + 1, n as int));
        assert(rest[0] == ch);
        if ch == '*' {
            if last_was_star {
                last_was_star = false;
                out.push('.');
                out.push('*');
                assert(out@ =~= before + any_segments());
            } else {
                last_was_star = true;
            }
        } else {
            if last_was_star {
                last_was_star = false;
                push_one_segment(&mut out);
            } else {
                assert(out@ =~= before + Seq::<char>::empty());
            }
            push_escaped(&mut out, ch);
        }
        i = i + 1;
    }
    if last_was_star {
        push_one_segment(&mut out);
    }
    out.push('$');
    out
}

/// Whether `pattern` matches the whole of `path`.
///
/// The answer is the regex engine's on the compiled pattern; where the pattern
/// holds no `*`, it is plain equality of the two texts. It fails exactly when
/// the regex engine refuses the compiled pattern.
pub fn pattern_match(pattern: &str, path: &str) -> (r: Result<bool, PatternError>)
    ensures
        r is Ok <==> regex_compiles(glob_regex(pattern@)),
        r matches Ok(b) ==> b == glob_matches(pattern@, path@),
        !pattern@.contains('*') ==> (r matches Ok(b) ==> (b <==> pattern@ == path@)),
        r matches Err(e) ==> e.pattern@ == pattern@,
{
    let regstr = compile_pattern(pattern);
    proof {
        if !pattern@.contains('*') {
            lemma_starless_pattern_is_literal(pattern@);
        }
    }
    match regex_is_match(regstr.as_str(), path) {
        Ok(b) => Ok(b),
        Err(_) => Err(PatternError { pattern: pattern.to_owned() }),
    }
}

/// A pattern without `*` compiles to the anchored literal of its own text.
pub proof fn lemma_starless_pattern_is_literal(pattern: Seq<char>)
    requires
        !pattern.contains('*'),
    ensures
        glob_regex(pattern) == anchored_literal(pattern),
{
    lemma_starless_body(pattern);
}

proof fn lemma_starless_body(p: Seq<char>)
    requires
        !p.contains('*'),
    ensures
        glob_body(p, false) == escaped_text(p),
    decreases p.len(),
{
    if p.len() > 0 {
        assert(p[0] != '*') by {
            if p[0] == '*' {
                assert(p.contains('*'));
            }
        }
        assert(!p.drop_first().contains('*')) by {
            if p.drop_first().contains('*') {
                let k = choose|k: int| 0 <= k < p.drop_first().len() && p.drop_first()[k] == '*';
                assert(p[k + 1] == '*');
            }
        }
        lemma_starless_body(p.drop_first());
        assert(Seq::<char>::empty() + escaped(p[0]) =~= escaped(p[0]));
    }
}

} // verus!
