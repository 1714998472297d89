//! Filling in the placeholders of a command-line template.
//!
//! For a file at the relative path `rel` under the source root, built into
//! the target root:
//! - `%{src_file}` becomes the file's path under the source root;
//! - `%{tar_dir}` becomes the target root;
//! - `%{src_file_stem}` becomes the file name without its final extension;
//! - `%{src_file_noext}` becomes the file's path with that extension removed;
//! - `%{src_rel_noext}` becomes the relative path with that extension removed.
//! Each placeholder is replaced wherever it occurs, in this order; anything
//! else, other `%{...}` sequences included, is left as it is.

use vstd::prelude::*;
use crate::paths::{chars_of, file_stem, join, join_path, file_name, stem, without_ext, without_extension};

verus! {

/// `s` with every occurrence of `from` replaced by `to`, scanning from the
/// left; occurrences do not overlap.
pub open spec fn replaced(s: Seq<char>, from: Seq<char>, to: Seq<char>) -> Seq<char>
    decreases s.len(),
{
    if from.len() == 0 || s.len() < from.len() {
        s
    } else if s.subrange(0, from.len() as int) == from {
        to + replaced(s.subrange(from.len() as int, s.len() as int), from, to)
    } else {
        seq![s[0]] + replaced(s.drop_first(), from, to)
    }
}

/// Whether `from` occurs in `v` at index `i`.
fn occurs_at(v: &Vec<char>, i: usize, from: &Vec<char>) -> (r: bool)
    requires
        i <= v@.len(),
    ensures
        r == (i + from@.len() <= v@.len() && v@.subrange(i as int, i + from@.len()) == from@),
{
    if from.len() > v.len() - i {
        return false;
    }
    let n = v.len();
    let mut k: usize = 0;
    while k < from.len()
        invariant
            n == v@.len(),
            i + from@.len() <= v@.len(),
            k <= from@.len(),
            v@.subrange(i as int, i + k) == from@.subrange(0, k as int),
        decreases from@.len() - k,
    {
        if v[i + k] != from[k] {
            assert(v@.subrange(i as int, i + from@.len())[k as int] != from@[k as int]);
            return false;
        }
        k = k + 1;
        assert(v@.subrange(i as int, i + k) =~= from@.subrange(0, k as int));
    }
    assert(from@.subrange(0, k as int) =~= from@);
    true
}

/// `s` with every occurrence of `from` replaced by `to`.
pub fn replace_all(s: &str, from: &str, to: &str) -> (r: String)
    requires
        from@.len() > 0,
    ensures
        r@ == replaced(s@, from@, to@),
{
    let v = chars_of(s);
    let f = chars_of(from);
    let n = v.len();
    let m = f.len();
    let mut out = String::new();
    let mut i: usize = 0;
    assert(v@.subrange(0, n as int) =~= v@);
    assert(out@ + replaced(v@, f@, to@) =~= replaced(v@, f@, to@));
    while i < n
        invariant
            n == v@.len(),
            v@ == s@,
            f@ == from@,
            m == f@.len(),
            m > 0,
            i <= n,
            out@ + replaced(v@.subrange(i as int, n as int), f@, to@) == replaced(v@, f@, to@),
        decreases n - i,
    {
        let ghost rest = v@.subrange(i as int, n as int);
        let ghost before = out@;
        if occurs_at(&v, i, &f) {
            assert(rest.subrange(0, m as int) =~= v@.subrange(i as int, i + m));
            assert(rest.subrange(m as int, rest.len() as int) =~= v@.subrange(i + m, n as int));
            out.append(to);
            i = i + m;
            assert(out@ + replaced(v@.subrange(i as int, n as int), f@, to@) =~= before + replaced(rest, f@, to@));
        } else {
            proof {
                if rest.len() >= m {
                    assert(rest.subrange(0, m as int) =~= v@.subrange(i as int, i + m));
                }
            }
            assert(rest.drop_first() =~= v@.subrange(i + 1, n as int));
            out.push(v[i]);
            i = i + 1;
            assert(out@ + replaced(v@.subrange(i as int, n as int), f@, to@) =~= before + replaced(rest, f@, to@));
        }
    }
    assert(v@.subrange(0, n as int) =~= v@);
    assert(out@ + replaced(v@.subrange(n as int, n as int), f@, to@) =~= out@);
    out
}

/// The template `arg` with every placeholder filled in, for the file at the
/// relative path `rel` under `src_dir`, built into `tar_dir`.
pub open spec fn expand(arg: Seq<char>, rel: Seq<char>, src_dir: Seq<char>, tar_dir: Seq<char>) -> Seq<char> {
    let src_file = join(src_dir, rel);
    let a1 = replaced(arg, "%{src_file}"@, src_file);
    let a2 = replaced(a1, "%{tar_dir}"@, tar_dir);
    let a3 = replaced(a2, "%{src_file_stem}"@, stem(file_name(src_file)));
    let a4 = replaced(a3, "%{src_file_noext}"@, without_ext(src_file));
    replaced(a4, "%{src_rel_noext}"@, without_ext(rel))
}

/// Fills in the placeholders of the template `arg` for the file at the
/// relative path `file_rel` under `src_dir`, built into `tar_dir`.
pub fn apply_holder(file_rel: &str, src_dir: &str, tar_dir: &str, arg: &str) -> (r: String)
    ensures
        r@ == expand(arg@, file_rel@, src_dir@, tar_dir@),
{
    proof {
        reveal_strlit("%{src_file}");
        reveal_strlit("%{tar_dir}");
        reveal_strlit("%{src_file_stem}");
        reveal_strlit("%{src_file_noext}");
        reveal_strlit("%{src_rel_noext}");
    }
    let src_file = join_path(src_dir, file_rel);
    let a1 = replace_all(arg, "%{src_file}", src_file.as_str());
    let a2 = replace_all(a1.as_str(), "%{tar_dir}", tar_dir);
    let stem_text = file_stem(src_file.as_str());
    let a3 = replace_all(a2.as_str(), "%{src_file_stem}", stem_text.as_str());
    let noext = without_extension(src_file.as_str());
    let a4 = replace_all(a3.as_str(), "%{src_file_noext}", noext.as_str());
    let rel_noext = without_extension(file_rel);
    replace_all(a4.as_str(), "%{src_rel_noext}", rel_noext.as_str())
}

} // verus!
