//! Decisions of the batch interface: deriving each download's file name from
//! its URL, joining it onto the destination directory, and folding per-URL
//! outcomes into the batch's result.

use vstd::prelude::*;

verus! {

/// The index of the last `/` in `s`, or `-1` when `s` has none.
pub open spec fn last_slash_index(s: Seq<char>) -> int
    decreases s.len(),
{
    if s.len() == 0 {
        -1
    } else if s.last() == '/' {
        s.len() - 1
    } else {
        last_slash_index(s.drop_last())
    }
}

/// A `/` with nothing after it but non-`/` characters is the last `/`.
proof fn lemma_last_slash_at(s: Seq<char>, k: int)
    requires
        0 <= k < s.len(),
        s[k] == '/',
        forall|j: int| k < j < s.len() ==> s[j] != '/',
    ensures
        last_slash_index(s) == k,
    decreases s.len(),
{
    if k == s.len() - 1 {
        assert(s.last() == '/');
    } else {
        assert(s.last() != '/');
        assert(s.drop_last()[k] == '/');
        lemma_last_slash_at(s.drop_last(), k);
    }
}

/// A string with no `/` at all has last-slash index `-1`.
proof fn lemma_no_slash(s: Seq<char>)
    requires
        forall|j: int| 0 <= j < s.len() ==> s[j] != '/',
    ensures
        last_slash_index(s) == -1,
    decreases s.len(),
{
    if s.len() > 0 {
        lemma_no_slash(s.drop_last());
    }
}

/// Derives a download's file name from its URL: everything after the last
/// `/`, or the whole URL when it has none. A URL ending in `/` yields the
/// empty name, as a split on the trailing path segment does.
pub fn filename_from_url(url: &str) -> (r: String)
    ensures
        r@ == url@.subrange(last_slash_index(url@) + 1, url@.len() as int),
{
    let len = url.unicode_len();
    let mut i: usize = len;
    while i > 0
        invariant
            i <= len,
            len == url@.len(),
            forall|j: int| i <= j < len ==> url@[j] != '/',
        decreases i,
    {
        if url.get_char(i - 1) == '/' {
            proof {
                lemma_last_slash_at(url@, i - 1);
            }
            let r = url.substring_char(i, len);
            return r.to_owned();
        }
        i = i - 1;
    }
    proof {
        lemma_no_slash(url@);
        assert(url@.subrange(0, url@.len() as int) =~= url@);
    }
    url.to_owned()
}

/// Joins a destination directory and a file name with a single `/`
/// separator: no separator is added after a directory that already ends in
/// `/`, and an empty directory yields the bare name.
pub fn join_output_path(dir: &str, name: &str) -> (r: String)
    ensures
        dir@.len() == 0 ==> r@ == name@,
        dir@.len() > 0 && dir@.last() == '/' ==> r@ == dir@ + name@,
        dir@.len() > 0 && dir@.last() != '/' ==> r@ == dir@ + "/"@ + name@,
{
    let len = dir.unicode_len();
    if len == 0 {
        return name.to_owned();
    }
    let mut r = dir.to_owned();
    if dir.get_char(len - 1) != '/' {
        r.append("/");
    }
    r.append(name);
    r
}

/// How many URLs of a batch are downloaded at once when the caller names no
/// bound.
pub const DEFAULT_MAX_CONCURRENT: usize = 3;

/// The bound on concurrently processed URLs: the caller's choice, or the
/// default of 3. It is independent of each download's own connection count.
pub fn resolve_max_concurrent(requested: Option<usize>) -> (r: usize)
    ensures
        requested is Some ==> r == requested->0,
        requested is None ==> r == DEFAULT_MAX_CONCURRENT,
{
    match requested {
        Option::Some(n) => n,
        Option::None => DEFAULT_MAX_CONCURRENT,
    }
}

/// Folds the per-URL outcomes of a batch into the batch's result: the list
/// of successfully written paths in order when every download succeeded,
/// else the first error in URL order. Files already written for successful
/// sibling downloads stay on disk either way; only fully successful paths
/// are ever reported.
pub fn collect_batch_results(outcomes: Vec<Result<String, crate::error::DownloadError>>) -> (r:
    Result<Vec<String>, crate::error::DownloadError>)
    ensures
        r is Ok <==> (forall|i: int| 0 <= i < outcomes@.len() ==> (#[trigger] outcomes@[i]) is Ok),
        r is Ok ==> r->Ok_0@.len() == outcomes@.len() && (forall|i: int|
            0 <= i < outcomes@.len() ==> (#[trigger] r->Ok_0@[i]) == outcomes@[i]->Ok_0),
        r is Err ==> exists|i: int|
            0 <= i < outcomes@.len() && (#[trigger] outcomes@[i]) is Err && r->Err_0
                == outcomes@[i]->Err_0 && (forall|j: int| 0 <= j < i ==> outcomes@[j] is Ok),
{
    let ghost orig = outcomes@;
    let mut v = outcomes;
    let n = v.len();
    proof {
        assert(orig.len() == n);
    }
    let mut paths: Vec<String> = Vec::new();
    let mut k: usize = 0;
    while v.len() > 0
        invariant
            orig == outcomes@,
            orig.len() <= usize::MAX,
            v@ =~= orig.subrange(k as int, orig.len() as int),
            k <= orig.len(),
            paths@.len() == k,
            forall|j: int| 0 <= j < k ==> (#[trigger] orig[j]) is Ok,
            forall|j: int| 0 <= j < k ==> (#[trigger] paths@[j]) == orig[j]->Ok_0,
        decreases v@.len(),
    {
        let x = v.remove(0);
        proof {
            assert(x == orig[k as int]);
            assert(v@ =~= orig.subrange(k as int + 1, orig.len() as int));
        }
        match x {
            Result::Ok(p) => {
                paths.push(p);
                k = k + 1;
            },
            Result::Err(e) => {
                proof {
                    assert(orig[k as int] is Err);
                }
                return Result::Err(e);
            },
        }
    }
    Result::Ok(paths)
}

} // verus!
