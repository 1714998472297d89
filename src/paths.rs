//! Paths as text, with `/` as the separator.
//!
//! The pipeline only ever joins a relative path onto a root and takes a path's
//! file name, stem and extension apart, so paths are kept as plain strings.

use vstd::prelude::*;
use vstd::std_specs::iter::IteratorSpec;

verus! {

/// The index of the last `c` in `s`, or -1 when `s` holds none.
pub open spec fn last_index(s: Seq<char>, c: char) -> int
    decreases s.len(),
{
    if s.len() == 0 {
        -1
    } else if s.last() == c {
        s.len() - 1
    } else {
        last_index(s.drop_last(), c)
    }
}

/// The last component of a path: what follows its last `/`.
pub open spec fn file_name(p: Seq<char>) -> Seq<char> {
    p.subrange(last_index(p, '/') + 1, p.len() as int)
}

/// The directory part of a path, up to and including its last `/`.
pub open spec fn dir_part(p: Seq<char>) -> Seq<char> {
    p.subrange(0, last_index(p, '/') + 1)
}

/// The stem of a file name: the name without its final extension. A name
/// without a dot, one whose only dot leads it, and `..` have no extension.
pub open spec fn stem(name: Seq<char>) -> Seq<char> {
    let d = last_index(name, '.');
    if d <= 0 || name == seq!['.', '.'] {
        name
    } else {
        name.subrange(0, d)
    }
}

/// A path with the final extension of its file name removed.
pub open spec fn without_ext(p: Seq<char>) -> Seq<char> {
    dir_part(p) + stem(file_name(p))
}

/// The relative path `rel` placed under `base`.
pub open spec fn join(base: Seq<char>, rel: Seq<char>) -> Seq<char> {
    if base.len() == 0 {
        rel
    } else if base.last() == '/' {
        base + rel
    } else {
        base + seq!['/'] + rel
    }
}

/// The characters of a string.
pub fn chars_of(s: &str) -> (r: Vec<char>)
    ensures
        r@ == s@,
{
    broadcast use vstd::string::group_string_axioms;
    let mut r: Vec<char> = Vec::new();
    let mut it = s.chars();
    loop
        invariant
            r@ + it.remaining() == s@,
        ensures
            r@ == s@,
        decreases s@.len() - r@.len(),
    {
        let ghost rest = it.remaining();
        match it.next() {
            Some(c) => {
                let ghost before = r@;
                r.push(c);
                assert(r@ + it.remaining() =~= before + rest);
            },
            None => {
                assert(r@ =~= s@);
                break;
            },
        }
    }
    r
}

/// The text of the characters `v[from..to]`.
pub fn text_of(v: &Vec<char>, from: usize, to: usize) -> (r: String)
    requires
        from <= to <= v@.len(),
    ensures
        r@ == v@.subrange(from as int, to as int),
{
    let mut r = String::new();
    let mut i: usize = from;
    while i < to
        invariant
            from <= i <= to <= v@.len(),
            r@ == v@.subrange(from as int, i as int),
        decreases to - i,
    {
        r.push(v[i]);
        i = i + 1;
        assert(r@ =~= v@.subrange(from as int, i as int));
    }
    r
}

/// The index of the last `c` in `v`, if there is one.
pub fn find_last(v: &Vec<char>, c: char) -> (r: Option<usize>)
    ensures
        match r {
            Some(k) => k as int == last_index(v@, c),
            None => last_index(v@, c) == -1,
        },
{
    let mut found: Option<usize> = None;
    let mut i: usize = 0;
    while i < v.len()
        invariant
            i <= v@.len(),
            match found {
                Some(k) => k as int == last_index(v@.subrange(0, i as int), c),
                None => last_index(v@.subrange(0, i as int), c) == -1,
            },
        decreases v@.len() - i,
    {
        assert(v@.subrange(0, i + 1).drop_last() =~= v@.subrange(0, i as int));
        if v[i] == c {
            found = Some(i);
        }
        i = i + 1;
    }
    assert(v@.subrange(0, v@.len() as int) =~= v@);
    found
}

proof fn lemma_last_index_bounds(s: Seq<char>, c: char)
    ensures
        -1 <= last_index(s, c) < s.len(),
        last_index(s, c) >= 0 ==> s[last_index(s, c)] == c,
    decreases s.len(),
{
    if s.len() > 0 && s.last() != c {
        lemma_last_index_bounds(s.drop_last(), c);
    }
}

/// The index at which the file name of the path `v` starts.
fn name_start(v: &Vec<char>) -> (r: usize)
    ensures
        r == last_index(v@, '/') + 1,
        r <= v@.len(),
{
    let n = v.len();
    proof {
        lemma_last_index_bounds(v@, '/');
    }
    assert(n == v@.len());
    match find_last(v, '/') {
        Some(k) => k + 1,
        None => 0,
    }
}

/// Whether two strings hold the same text.
pub fn same_text(a: &String, b: &str) -> (r: bool)
    ensures
        r == (a@ == b@),
{
    let b = b.to_owned();
    *a == b
}

/// The last component of `path`.
pub fn file_name_of(path: &str) -> (r: String)
    ensures
        r@ == file_name(path@),
{
    let v = chars_of(path);
    let start = name_start(&v);
    text_of(&v, start, v.len())
}

/// The file name of `path` without its final extension.
pub fn file_stem(path: &str) -> (r: String)
    ensures
        r@ == stem(file_name(path@)),
{
    let v = chars_of(path);
    let name_start = name_start(&v);
    let name = text_of(&v, name_start, v.len());
    stem_of_name(&name)
}

fn stem_of_name(name: &String) -> (r: String)
    ensures
        r@ == stem(name@),
{
    let v = chars_of(name.as_str());
    proof {
        lemma_last_index_bounds(v@, '.');
    }
    let is_parent = v.len() == 2 && v[0] == '.' && v[1] == '.';
    assert(is_parent <==> v@ == seq!['.', '.']) by {
        if v@ == seq!['.', '.'] {
            assert(v@[0] == '.' && v@[1] == '.');
        }
        if is_parent {
            assert(v@ =~= seq!['.', '.']);
        }
    }
    match find_last(&v, '.') {
        Some(d) => if d == 0 || is_parent {
            text_of(&v, 0, v.len())
        } else {
            text_of(&v, 0, d)
        },
        None => text_of(&v, 0, v.len()),
    }
}

/// `path` with the final extension of its file name removed; the directory
/// part is kept.
pub fn without_extension(path: &str) -> (r: String)
    ensures
        r@ == without_ext(path@),
{
    let v = chars_of(path);
    let name_start = name_start(&v);
    let mut r = text_of(&v, 0, name_start);
    let name = text_of(&v, name_start, v.len());
    let s = stem_of_name(&name);
    r.append(s.as_str());
    r
}

/// The relative path `rel` placed under `base`.
pub fn join_path(base: &str, rel: &str) -> (r: String)
    ensures
        r@ == join(base@, rel@),
{
    let v = chars_of(base);
    let mut r = base.to_owned();
    if v.len() > 0 && v[v.len() - 1] != '/' {
        r.push('/');
    }
    r.append(rel);
    r
}

} // verus!
