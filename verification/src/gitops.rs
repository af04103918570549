//! The rules the git plumbing follows: which paths a snapshot leaves out,
//! how a nested repository is named in the index, which gitlinks cannot be
//! pinned, and the exact git command lines of a workdir diff.

use crate::config::strs_view;
use crate::text::concat2;
use vstd::prelude::*;

verus! {

/// Whether `path` starts with `root` component by component, as
/// `std::path::Path::starts_with` decides it (a function of the two texts).
pub uninterp spec fn path_starts_with(path: Seq<char>, root: Seq<char>) -> bool;

/// `std::path::Path::new(path).starts_with(root)`.
#[verifier::external_body]
pub(crate) fn path_has_prefix(path: &str, root: &str) -> (b: bool)
    ensures
        b == path_starts_with(path@, root@),
{
    std::path::Path::new(path).starts_with(root)
}

/// A path is excluded iff it lies under one of the excluded roots.
pub open spec fn excluded_spec(path: Seq<char>, excluded: Seq<Seq<char>>) -> bool {
    exists|i: int| 0 <= i < excluded.len() && path_starts_with(path, excluded[i])
}

/// Whether `path` lies under one of the `excluded` roots.
pub fn is_excluded(path: &str, excluded: &Vec<String>) -> (b: bool)
    ensures
        b == excluded_spec(path@, strs_view(excluded@)),
{
    let mut i: usize = 0;
    while i < excluded.len()
        invariant
            i <= excluded@.len(),
            forall|j: int| 0 <= j < i ==> !path_starts_with(path@, #[trigger] excluded@[j]@),
        decreases excluded@.len() - i,
    {
        if path_has_prefix(path, excluded[i].as_str()) {
            proof {
                assert(strs_view(excluded@)[i as int] == excluded@[i as int]@);
            }
            return true;
        }
        i = i + 1;
    }
    proof {
        assert forall|j: int| 0 <= j < strs_view(excluded@).len() implies !path_starts_with(path@, strs_view(excluded@)[j]) by {
            assert(strs_view(excluded@)[j] == excluded@[j]@);
        }
    }
    false
}

/// The index name of a nested repository found at `path`: the path without
/// one trailing `/`.
pub open spec fn gitlink_name_spec(path: Seq<u8>) -> Seq<u8> {
    if path.len() > 0 && path.last() == 47u8 { path.drop_last() } else { path }
}

/// Names a nested repository for the index.
pub fn gitlink_name(path: Vec<u8>) -> (name: Vec<u8>)
    ensures
        name@ == gitlink_name_spec(path@),
{
    let mut name = path;
    let n = name.len();
    if n > 0 && name[n - 1] == 47u8 {
        let _ = name.pop();
    }
    name
}

/// The mode git gives a gitlink (a nested repository pinned by commit).
pub const GITLINK_MODE: u32 = 0o160000;

/// The indices of the index entries that are gitlinks.
pub open spec fn gitlink_positions(modes: Seq<u32>) -> Seq<int>
    decreases modes.len(),
{
    if modes.len() == 0 {
        Seq::empty()
    } else {
        let rest = gitlink_positions(modes.drop_last());
        if modes.last() == GITLINK_MODE { rest.push(modes.len() - 1) } else { rest }
    }
}

/// The positions, in order, of the entries whose mode is a gitlink's.
pub fn gitlinks(modes: &Vec<u32>) -> (r: Vec<usize>)
    ensures
        r@.map_values(|i: usize| i as int) == gitlink_positions(modes@),
{
    let mut r: Vec<usize> = Vec::new();
    let mut i: usize = 0;
    while i < modes.len()
        invariant
            i <= modes@.len(),
            r@.map_values(|k: usize| k as int) == gitlink_positions(modes@.take(i as int)),
        decreases modes@.len() - i,
    {
        proof {
            assert(modes@.take(i + 1).drop_last() =~= modes@.take(i as int));
        }
        if modes[i] == GITLINK_MODE {
            let ghost r0 = r@;
            r.push(i);
            proof {
                assert(r@.map_values(|k: usize| k as int) =~= r0.map_values(|k: usize| k as int).push(i as int));
            }
        }
        i = i + 1;
    }
    proof {
        assert(modes@.take(i as int) =~= modes@);
    }
    r
}

/// The gitlinks that cannot be pinned: those whose nested repository has
/// no commit (`has_head[i]` tells, for the i-th gitlink, whether it has).
pub open spec fn unpinnable_spec(links: Seq<Seq<u8>>, has_head: Seq<bool>) -> Seq<Seq<u8>>
    decreases links.len(),
{
    if links.len() == 0 || has_head.len() < links.len() {
        Seq::empty()
    } else {
        let rest = unpinnable_spec(links.drop_last(), has_head.take(links.len() - 1));
        if has_head[links.len() - 1] { rest } else { rest.push(links.last()) }
    }
}

/// The gitlinks without a commit, in order: a commitless `git init` cannot
/// be pinned and is dropped from the scratch index.
pub fn unpinnable(links: &Vec<Vec<u8>>, has_head: &Vec<bool>) -> (r: Vec<Vec<u8>>)
    requires
        has_head@.len() == links@.len(),
    ensures
        r@.map_values(|p: Vec<u8>| p@) == unpinnable_spec(links@.map_values(|p: Vec<u8>| p@), has_head@),
{
    let ghost lv = links@.map_values(|p: Vec<u8>| p@);
    let mut r: Vec<Vec<u8>> = Vec::new();
    let mut i: usize = 0;
    while i < links.len()
        invariant
            i <= links@.len(),
            has_head@.len() == links@.len(),
            lv == links@.map_values(|p: Vec<u8>| p@),
            r@.map_values(|p: Vec<u8>| p@) == unpinnable_spec(lv.take(i as int), has_head@.take(i as int)),
        decreases links@.len() - i,
    {
        proof {
            assert(lv.take(i + 1).drop_last() =~= lv.take(i as int));
            assert(has_head@.take(i + 1).take(i as int) =~= has_head@.take(i as int));
            assert(lv.take(i + 1).last() == links@[i as int]@);
        }
        if !has_head[i] {
            let ghost r0 = r@;
            let p = links[i].clone();
            r.push(p);
            proof {
                assert(r@.map_values(|p: Vec<u8>| p@) =~= r0.map_values(|p: Vec<u8>| p@).push(links@[i as int]@));
            }
        }
        i = i + 1;
    }
    proof {
        assert(lv.take(i as int) =~= lv);
        assert(has_head@.take(i as int) =~= has_head@);
    }
    r
}

/// The pathspecs of a workdir diff: everything, minus each excluded path
/// taken literally from the top of the tree.
pub open spec fn diff_pathspecs_spec(excluded: Seq<Seq<char>>) -> Seq<Seq<char>> {
    seq![seq!['.']] + excluded.map_values(|p: Seq<char>| ":(top,exclude,literal)"@ + p)
}

/// The pathspecs of a workdir diff.
pub fn diff_pathspecs(excluded: &Vec<String>) -> (r: Vec<String>)
    ensures
        strs_view(r@) == diff_pathspecs_spec(strs_view(excluded@)),
{
    let mut r: Vec<String> = Vec::new();
    r.push(String::from_str("."));
    proof {
        reveal_strlit(".");
        assert("."@ =~= seq!['.']);
        assert(strs_view(r@) =~= seq![seq!['.']]);
        assert(strs_view(excluded@).take(0).map_values(|p: Seq<char>| ":(top,exclude,literal)"@ + p) =~= Seq::<Seq<char>>::empty());
        assert(strs_view(r@) =~= seq![seq!['.']] + strs_view(excluded@).take(0).map_values(|p: Seq<char>| ":(top,exclude,literal)"@ + p));
    }
    let mut i: usize = 0;
    while i < excluded.len()
        invariant
            i <= excluded@.len(),
            strs_view(r@) == seq![seq!['.']] + strs_view(excluded@).take(i as int).map_values(|p: Seq<char>| ":(top,exclude,literal)"@ + p),
        decreases excluded@.len() - i,
    {
        let s = concat2(":(top,exclude,literal)", excluded[i].as_str());
        let ghost r0 = r@;
        r.push(s);
        proof {
            assert(strs_view(r@) =~= strs_view(r0).push(s@));
            assert(strs_view(excluded@).take(i + 1) =~= strs_view(excluded@).take(i as int).push(excluded@[i as int]@));
            assert(strs_view(excluded@).take(i + 1).map_values(|p: Seq<char>| ":(top,exclude,literal)"@ + p)
                =~= strs_view(excluded@).take(i as int).map_values(|p: Seq<char>| ":(top,exclude,literal)"@ + p).push(":(top,exclude,literal)"@ + excluded@[i as int]@));
        }
        i = i + 1;
    }
    proof {
        assert(strs_view(excluded@).take(i as int) =~= strs_view(excluded@));
    }
    r
}

/// The arguments of the diff of a workdir against `commit`: no external
/// diff drivers, no text conversion, no colour, renames paired up.
pub open spec fn diff_args_spec(commit: Seq<char>, excluded: Seq<Seq<char>>) -> Seq<Seq<char>> {
    seq!["diff"@, "--no-ext-diff"@, "--no-textconv"@, "--no-color"@, "--find-renames"@, commit, "--"@]
        + diff_pathspecs_spec(excluded)
}

/// The arguments of the diff of a workdir against `commit`.
pub fn diff_args(commit: &str, excluded: &Vec<String>) -> (r: Vec<String>)
    ensures
        strs_view(r@) == diff_args_spec(commit@, strs_view(excluded@)),
{
    let mut r: Vec<String> = Vec::new();
    r.push(String::from_str("diff"));
    r.push(String::from_str("--no-ext-diff"));
    r.push(String::from_str("--no-textconv"));
    r.push(String::from_str("--no-color"));
    r.push(String::from_str("--find-renames"));
    r.push(String::from_str(commit));
    r.push(String::from_str("--"));
    let ghost head = r@;
    let mut specs = diff_pathspecs(excluded);
    r.append(&mut specs);
    proof {
        assert(strs_view(r@) =~= strs_view(head) + diff_pathspecs_spec(strs_view(excluded@)));
        assert(strs_view(head) =~= seq!["diff"@, "--no-ext-diff"@, "--no-textconv"@, "--no-color"@, "--find-renames"@, commit@, "--"@]);
    }
    r
}

/// The arguments that stage every path as intent-to-add, so that new files
/// show in the diff without their content being hashed into the object
/// store, and without advice about embedded repositories.
pub open spec fn add_args_spec() -> Seq<Seq<char>> {
    seq!["-c"@, "advice.addEmbeddedRepo=false"@, "add"@, "--intent-to-add"@, "--"@, "."@]
}

/// The arguments of the intent-to-add staging.
pub fn add_args() -> (r: Vec<String>)
    ensures
        strs_view(r@) == add_args_spec(),
{
    let mut r: Vec<String> = Vec::new();
    r.push(String::from_str("-c"));
    r.push(String::from_str("advice.addEmbeddedRepo=false"));
    r.push(String::from_str("add"));
    r.push(String::from_str("--intent-to-add"));
    r.push(String::from_str("--"));
    r.push(String::from_str("."));
    proof {
        assert(strs_view(r@) =~= add_args_spec());
    }
    r
}

/// The leading arguments of every git run on a scratch git dir: the
/// scratch dir, the agent's workdir as work tree, no pager.
pub open spec fn git_prefix_spec(scratch: Seq<char>, workdir: Seq<char>) -> Seq<Seq<char>> {
    seq!["--git-dir"@, scratch, "--work-tree"@, workdir, "--no-pager"@]
}

/// The leading arguments of a git run on a scratch git dir.
pub fn git_prefix(scratch: &str, workdir: &str) -> (r: Vec<String>)
    ensures
        strs_view(r@) == git_prefix_spec(scratch@, workdir@),
{
    let mut r: Vec<String> = Vec::new();
    r.push(String::from_str("--git-dir"));
    r.push(String::from_str(scratch));
    r.push(String::from_str("--work-tree"));
    r.push(String::from_str(workdir));
    r.push(String::from_str("--no-pager"));
    proof {
        assert(strs_view(r@) =~= git_prefix_spec(scratch@, workdir@));
    }
    r
}

} // verus!
