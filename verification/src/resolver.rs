use vstd::prelude::*;

verus! {

use crate::error::FetchError;

/// The four components extracted from a GitHub blob URL, as character
/// sequences: the ghost view of a `RepoFileRef`.
#[verifier::ext_equal]
pub struct BlobParts {
    pub owner: Seq<char>,
    pub repo: Seq<char>,
    pub git_ref: Seq<char>,
    pub path: Seq<char>,
}

/// A reference to one file in a GitHub repository at a given ref, produced
/// by parsing a blob URL. `git_ref` is a branch name, tag, or commit SHA.
/// Once parsing has succeeded all four fields are non-empty, and the first
/// three contain no `/`; only `path` may.
#[derive(Clone, Debug, PartialEq, Eq)]
pub struct RepoFileRef {
    pub owner: String,
    pub repo: String,
    pub git_ref: String,
    pub path: String,
}

impl View for RepoFileRef {
    type V = BlobParts;

    open spec fn view(&self) -> BlobParts {
        BlobParts {
            owner: self.owner@,
            repo: self.repo@,
            git_ref: self.git_ref@,
            path: self.path@,
        }
    }
}

/// The host text that introduces the blob pattern.
pub open spec fn host_marker() -> Seq<char> {
    "github.com/"@
}

/// The text standing between the repository segment and the ref segment.
pub open spec fn blob_marker() -> Seq<char> {
    "/blob/"@
}

/// A single URL segment: non-empty and free of `/`.
pub open spec fn seg_ok(s: Seq<char>) -> bool {
    s.len() > 0 && (forall|k: int| 0 <= k < s.len() ==> s[k] != '/')
}

/// Well-formedness of the four components: owner, repository and ref are
/// single segments, and the path is non-empty (it may contain `/`).
pub open spec fn parts_wf(p: BlobParts) -> bool {
    seg_ok(p.owner) && seg_ok(p.repo) && seg_ok(p.git_ref) && p.path.len() > 0
}

/// The text a blob URL ends with when its components are `p`:
/// `github.com/{owner}/{repo}/blob/{ref}/{path}`.
pub open spec fn rendered(p: BlobParts) -> Seq<char> {
    host_marker() + p.owner + "/"@ + p.repo + blob_marker() + p.git_ref + "/"@ + p.path
}

/// The blob pattern matches `s` at position `i` with components `p`: from
/// `i` on, `s` reads `github.com/`, then the owner segment, `/`, the
/// repository segment, `/blob/`, the ref segment, `/`, and the path, which
/// runs to the end of `s`. The ref segment ends at the first `/` after
/// `blob/`, so a ref containing `/` is split there.
pub open spec fn match_at(s: Seq<char>, i: int, p: BlobParts) -> bool {
    let a = i + 11 + p.owner.len();
    let b = a + 1 + p.repo.len();
    let c = b + 6 + p.git_ref.len();
    &&& 0 <= i
    &&& parts_wf(p)
    &&& c + 1 + p.path.len() == s.len()
    &&& s.subrange(i, i + 11) == host_marker()
    &&& s.subrange(i + 11, a) == p.owner
    &&& s[a] == '/'
    &&& s.subrange(a + 1, b) == p.repo
    &&& s.subrange(b, b + 6) == blob_marker()
    &&& s.subrange(b + 6, c) == p.git_ref
    &&& s[c] == '/'
    &&& s.subrange(c + 1, s.len() as int) == p.path
}

/// The blob pattern matches `s` at position `i` with some components.
pub open spec fn match_from(s: Seq<char>, i: int) -> bool {
    exists|p: BlobParts| match_at(s, i, p)
}

/// The blob pattern matches `s` at position `i` with components `p`, and
/// at no earlier position.
pub open spec fn leftmost_match(s: Seq<char>, i: int, p: BlobParts) -> bool {
    &&& match_at(s, i, p)
    &&& forall|j: int| 0 <= j < i ==> !match_from(s, j)
}

/// `p` holds the components of the leftmost match of the blob pattern in
/// `s`.
pub open spec fn resolves_to(s: Seq<char>, p: BlobParts) -> bool {
    exists|i: int| leftmost_match(s, i, p)
}

/// `j` is the first position at or after `from` where `s` holds a `/`.
pub open spec fn first_slash_from(s: Seq<char>, from: int, j: int) -> bool {
    &&& from <= j < s.len()
    &&& s[j] == '/'
    &&& forall|k: int| from <= k < j ==> s[k] != '/'
}

/// No position at or after `from` holds a `/`.
pub open spec fn no_slash_from(s: Seq<char>, from: int) -> bool {
    forall|k: int| from <= k < s.len() ==> s[k] != '/'
}

/// A match fixes where the owner segment ends: at the first `/` after the
/// host text.
proof fn lemma_forced_owner_end(s: Seq<char>, i: int, p: BlobParts, a: int)
    requires
        match_at(s, i, p),
        first_slash_from(s, i + 11, a),
    ensures
        i + 11 + p.owner.len() == a,
{
    let ap = i + 11 + p.owner.len() as int;
    if ap < a {
        assert(s[ap] != '/');
    } else if ap > a {
        assert(p.owner[a - (i + 11)] == s.subrange(i + 11, ap)[a - (i + 11)]);
        assert(p.owner[a - (i + 11)] == s[a]);
    }
}

/// A match fixes where the repository segment ends: at the first `/` after
/// the owner segment.
proof fn lemma_forced_repo_end(s: Seq<char>, i: int, p: BlobParts, b: int)
    requires
        match_at(s, i, p),
        first_slash_from(s, i + 12 + p.owner.len(), b),
    ensures
        i + 12 + p.owner.len() + p.repo.len() == b,
{
    let from = i + 12 + p.owner.len() as int;
    let bp = from + p.repo.len() as int;
    assert(s[bp] == s.subrange(bp, bp + 6)[0]);
    reveal_strlit("/blob/");
    assert(s[bp] == '/');
    if bp < b {
        assert(s[bp] != '/');
    } else if bp > b {
        assert(p.repo[b - from] == s.subrange(from, bp)[b - from]);
        assert(p.repo[b - from] == s[b]);
    }
}

/// A match fixes where the ref segment ends: at the first `/` after
/// `blob/`.
proof fn lemma_forced_ref_end(s: Seq<char>, i: int, p: BlobParts, c: int)
    requires
        match_at(s, i, p),
        first_slash_from(s, i + 18 + p.owner.len() + p.repo.len(), c),
    ensures
        i + 18 + p.owner.len() + p.repo.len() + p.git_ref.len() == c,
{
    let from = i + 18 + p.owner.len() + p.repo.len() as int;
    let cp = from + p.git_ref.len() as int;
    assert(s[cp] == '/');
    if cp < c {
        assert(s[cp] != '/');
    } else if cp > c {
        assert(p.git_ref[c - from] == s.subrange(from, cp)[c - from]);
        assert(p.git_ref[c - from] == s[c]);
    }
}

/// No match starts at a negative position or within 22 characters of the
/// end: the pattern needs at least 23 characters.
proof fn lemma_no_match_out_of_range(s: Seq<char>, i: int)
    requires
        i < 0 || i + 23 > s.len(),
    ensures
        !match_from(s, i),
{
    assert forall|p: BlobParts| !match_at(s, i, p) by {
        if match_at(s, i, p) {
            assert(s.len() >= i + 23);
        }
    }
}

/// No match starts at `i` when the host text does not stand there.
proof fn lemma_no_match_marker(s: Seq<char>, i: int, k: int)
    requires
        0 <= i,
        0 <= k < 11,
        s[i + k] != host_marker()[k],
    ensures
        !match_from(s, i),
{
    assert forall|p: BlobParts| !match_at(s, i, p) by {
        if match_at(s, i, p) {
            assert(host_marker()[k] == s.subrange(i, i + 11)[k]);
            assert(host_marker()[k] == s[i + k]);
        }
    }
}

/// No match starts at `i` when no `/` follows the host text.
proof fn lemma_no_match_owner_missing(s: Seq<char>, i: int)
    requires
        0 <= i,
        no_slash_from(s, i + 11),
    ensures
        !match_from(s, i),
{
    assert forall|p: BlobParts| !match_at(s, i, p) by {
        if match_at(s, i, p) {
            let ap = i + 11 + p.owner.len() as int;
            assert(i + 11 <= ap < s.len());
            assert(s[ap] != '/');
        }
    }
}

/// No match starts at `i` when a `/` immediately follows the host text:
/// the owner segment would be empty.
proof fn lemma_no_match_owner_empty(s: Seq<char>, i: int)
    requires
        0 <= i,
        i + 11 < s.len(),
        s[i + 11] == '/',
    ensures
        !match_from(s, i),
{
    assert forall|p: BlobParts| !match_at(s, i, p) by {
        if match_at(s, i, p) {
            let ap = i + 11 + p.owner.len() as int;
            assert(p.owner[0] == s.subrange(i + 11, ap)[0]);
            assert(p.owner[0] == s[i + 11]);
        }
    }
}

/// No match starts at `i` when no `/` follows the owner segment.
proof fn lemma_no_match_repo_missing(s: Seq<char>, i: int, a: int)
    requires
        0 <= i,
        first_slash_from(s, i + 11, a),
        no_slash_from(s, a + 1),
    ensures
        !match_from(s, i),
{
    assert forall|p: BlobParts| !match_at(s, i, p) by {
        if match_at(s, i, p) {
            lemma_forced_owner_end(s, i, p, a);
            let bp = a + 1 + p.repo.len() as int;
            assert(s[bp] == s.subrange(bp, bp + 6)[0]);
            reveal_strlit("/blob/");
            assert(s[bp] == '/');
            assert(a + 1 <= bp < s.len());
            assert(s[bp] != '/');
        }
    }
}

/// No match starts at `i` when a `/` immediately follows the owner's `/`:
/// the repository segment would be empty.
proof fn lemma_no_match_repo_empty(s: Seq<char>, i: int, a: int)
    requires
        0 <= i,
        first_slash_from(s, i + 11, a),
        a + 1 < s.len(),
        s[a + 1] == '/',
    ensures
        !match_from(s, i),
{
    assert forall|p: BlobParts| !match_at(s, i, p) by {
        if match_at(s, i, p) {
            lemma_forced_owner_end(s, i, p, a);
            let bp = a + 1 + p.repo.len() as int;
            assert(p.repo[0] == s.subrange(a + 1, bp)[0]);
            assert(p.repo[0] == s[a + 1]);
        }
    }
}

/// No match starts at `i` when fewer than 9 characters follow the
/// repository's `/`: `/blob/`, the ref, `/` and the path need that many.
proof fn lemma_no_match_short_tail(s: Seq<char>, i: int, a: int, b: int)
    requires
        0 <= i,
        first_slash_from(s, i + 11, a),
        first_slash_from(s, a + 1, b),
        s.len() < b + 9,
    ensures
        !match_from(s, i),
{
    assert forall|p: BlobParts| !match_at(s, i, p) by {
        if match_at(s, i, p) {
            lemma_forced_owner_end(s, i, p, a);
            lemma_forced_repo_end(s, i, p, b);
            assert(s.len() >= b + 9);
        }
    }
}

/// No match starts at `i` when the text after the repository segment is
/// not `/blob/`.
proof fn lemma_no_match_blob(s: Seq<char>, i: int, a: int, b: int, k: int)
    requires
        0 <= i,
        first_slash_from(s, i + 11, a),
        first_slash_from(s, a + 1, b),
        0 <= k < 6,
        b + k < s.len(),
        s[b + k] != blob_marker()[k],
    ensures
        !match_from(s, i),
{
    assert forall|p: BlobParts| !match_at(s, i, p) by {
        if match_at(s, i, p) {
            lemma_forced_owner_end(s, i, p, a);
            lemma_forced_repo_end(s, i, p, b);
            assert(blob_marker()[k] == s.subrange(b, b + 6)[k]);
            assert(blob_marker()[k] == s[b + k]);
        }
    }
}

/// No match starts at `i` when no `/` follows `blob/`.
proof fn lemma_no_match_ref_missing(s: Seq<char>, i: int, a: int, b: int)
    requires
        0 <= i,
        first_slash_from(s, i + 11, a),
        first_slash_from(s, a + 1, b),
        no_slash_from(s, b + 6),
    ensures
        !match_from(s, i),
{
    assert forall|p: BlobParts| !match_at(s, i, p) by {
        if match_at(s, i, p) {
            lemma_forced_owner_end(s, i, p, a);
            lemma_forced_repo_end(s, i, p, b);
            let cp = b + 6 + p.git_ref.len() as int;
            assert(b + 6 <= cp < s.len());
            assert(s[cp] == '/');
            assert(s[cp] != '/');
        }
    }
}

/// No match starts at `i` when a `/` immediately follows `blob/`: the ref
/// segment would be empty.
proof fn lemma_no_match_ref_empty(s: Seq<char>, i: int, a: int, b: int)
    requires
        0 <= i,
        first_slash_from(s, i + 11, a),
        first_slash_from(s, a + 1, b),
        b + 6 < s.len(),
        s[b + 6] == '/',
    ensures
        !match_from(s, i),
{
    assert forall|p: BlobParts| !match_at(s, i, p) by {
        if match_at(s, i, p) {
            lemma_forced_owner_end(s, i, p, a);
            lemma_forced_repo_end(s, i, p, b);
            let cp = b + 6 + p.git_ref.len() as int;
            assert(p.git_ref[0] == s.subrange(b + 6, cp)[0]);
            assert(p.git_ref[0] == s[b + 6]);
        }
    }
}

/// No match starts at `i` when the `/` after the ref segment ends the
/// string: the path would be empty.
proof fn lemma_no_match_path_empty(s: Seq<char>, i: int, a: int, b: int, c: int)
    requires
        0 <= i,
        first_slash_from(s, i + 11, a),
        first_slash_from(s, a + 1, b),
        first_slash_from(s, b + 6, c),
        s.len() == c + 1,
    ensures
        !match_from(s, i),
{
    assert forall|p: BlobParts| !match_at(s, i, p) by {
        if match_at(s, i, p) {
            lemma_forced_owner_end(s, i, p, a);
            lemma_forced_repo_end(s, i, p, b);
            lemma_forced_ref_end(s, i, p, c);
            assert(s.len() >= c + 2);
        }
    }
}

/// A match at a given position has exactly one reading: the four
/// components are determined by the string and the position, so a
/// successful parse extracts them verbatim, never one of several ways.
pub proof fn lemma_match_at_unique(s: Seq<char>, i: int, p1: BlobParts, p2: BlobParts)
    requires
        match_at(s, i, p1),
        match_at(s, i, p2),
    ensures
        p1 == p2,
{
    reveal_strlit("/blob/");
    let a1 = i + 11 + p1.owner.len() as int;
    let a2 = i + 11 + p2.owner.len() as int;
    if a1 < a2 {
        assert(p2.owner[a1 - (i + 11)] == s.subrange(i + 11, a2)[a1 - (i + 11)]);
        assert(p2.owner[a1 - (i + 11)] == s[a1]);
    } else if a2 < a1 {
        assert(p1.owner[a2 - (i + 11)] == s.subrange(i + 11, a1)[a2 - (i + 11)]);
        assert(p1.owner[a2 - (i + 11)] == s[a2]);
    }
    let a = a1;
    assert(p1.owner =~= p2.owner);
    let b1 = a + 1 + p1.repo.len() as int;
    let b2 = a + 1 + p2.repo.len() as int;
    assert(s[b1] == s.subrange(b1, b1 + 6)[0]);
    assert(s[b1] == '/');
    assert(s[b2] == s.subrange(b2, b2 + 6)[0]);
    assert(s[b2] == '/');
    if b1 < b2 {
        assert(p2.repo[b1 - (a + 1)] == s.subrange(a + 1, b2)[b1 - (a + 1)]);
        assert(p2.repo[b1 - (a + 1)] == s[b1]);
    } else if b2 < b1 {
        assert(p1.repo[b2 - (a + 1)] == s.subrange(a + 1, b1)[b2 - (a + 1)]);
        assert(p1.repo[b2 - (a + 1)] == s[b2]);
    }
    let b = b1;
    assert(p1.repo =~= p2.repo);
    let c1 = b + 6 + p1.git_ref.len() as int;
    let c2 = b + 6 + p2.git_ref.len() as int;
    if c1 < c2 {
        assert(p2.git_ref[c1 - (b + 6)] == s.subrange(b + 6, c2)[c1 - (b + 6)]);
        assert(p2.git_ref[c1 - (b + 6)] == s[c1]);
    } else if c2 < c1 {
        assert(p1.git_ref[c2 - (b + 6)] == s.subrange(b + 6, c1)[c2 - (b + 6)]);
        assert(p1.git_ref[c2 - (b + 6)] == s[c2]);
    }
    assert(p1.git_ref =~= p2.git_ref);
    assert(p1.path =~= p2.path);
    assert(p1 =~= p2);
}

/// The length of the rendered blob pattern: its four components plus the
/// 19 fixed characters around them.
proof fn lemma_rendered_len(p: BlobParts)
    ensures
        rendered(p).len() == 19 + p.owner.len() + p.repo.len() + p.git_ref.len() + p.path.len(),
{
    reveal_strlit("github.com/");
    reveal_strlit("/blob/");
    reveal_strlit("/");
}

/// What stands at each position of the rendered blob pattern, zone by
/// zone.
proof fn lemma_rendered_index(p: BlobParts, k: int)
    requires
        0 <= k < rendered(p).len(),
    ensures
        k < 11 ==> rendered(p)[k] == host_marker()[k],
        11 <= k < 11 + p.owner.len() ==> rendered(p)[k] == p.owner[k - 11],
        k == 11 + p.owner.len() ==> rendered(p)[k] == '/',
        12 + p.owner.len() <= k < 12 + p.owner.len() + p.repo.len() ==> rendered(p)[k]
            == p.repo[k - 12 - p.owner.len()],
        12 + p.owner.len() + p.repo.len() <= k < 18 + p.owner.len() + p.repo.len() ==> rendered(
            p,
        )[k] == blob_marker()[k - 12 - p.owner.len() - p.repo.len()],
        18 + p.owner.len() + p.repo.len() <= k < 18 + p.owner.len() + p.repo.len()
            + p.git_ref.len() ==> rendered(p)[k] == p.git_ref[k - 18 - p.owner.len()
            - p.repo.len()],
        k == 18 + p.owner.len() + p.repo.len() + p.git_ref.len() ==> rendered(p)[k] == '/',
        19 + p.owner.len() + p.repo.len() + p.git_ref.len() <= k ==> rendered(p)[k] == p.path[k
            - 19 - p.owner.len() - p.repo.len() - p.git_ref.len()],
{
    reveal_strlit("github.com/");
    reveal_strlit("/blob/");
    reveal_strlit("/");
}

/// The positional reading of a match agrees with the verbatim one: the
/// pattern matches at `i` with components `p` exactly when the text of
/// `s` from `i` to its end is `github.com/`, the owner, `/`, the
/// repository, `/blob/`, the ref and `/`, followed by the path.
pub proof fn lemma_match_at_iff_rendered(s: Seq<char>, i: int, p: BlobParts)
    requires
        0 <= i <= s.len(),
    ensures
        match_at(s, i, p) <==> (parts_wf(p) && s.subrange(i, s.len() as int) == rendered(p)),
{
    lemma_rendered_len(p);
    reveal_strlit("github.com/");
    reveal_strlit("/blob/");
    reveal_strlit("/");
    let n = s.len() as int;
    let t = s.subrange(i, n);
    let ol = p.owner.len() as int;
    let rl = p.repo.len() as int;
    let fl = p.git_ref.len() as int;
    let pl = p.path.len() as int;
    let a = i + 11 + ol;
    let b = a + 1 + rl;
    let c = b + 6 + fl;
    if match_at(s, i, p) {
        assert forall|k: int| 0 <= k < t.len() implies t[k] == rendered(p)[k] by {
            lemma_rendered_index(p, k);
            assert(t[k] == s[i + k]);
            if k < 11 {
                assert(s[i + k] == s.subrange(i, i + 11)[k]);
            } else if k < 11 + ol {
                assert(s[i + k] == s.subrange(i + 11, a)[k - 11]);
            } else if k == 11 + ol {
                assert(s[i + k] == s[a]);
            } else if k < 12 + ol + rl {
                assert(s[i + k] == s.subrange(a + 1, b)[k - 12 - ol]);
            } else if k < 18 + ol + rl {
                assert(s[i + k] == s.subrange(b, b + 6)[k - 12 - ol - rl]);
            } else if k < 18 + ol + rl + fl {
                assert(s[i + k] == s.subrange(b + 6, c)[k - 18 - ol - rl]);
            } else if k == 18 + ol + rl + fl {
                assert(s[i + k] == s[c]);
            } else {
                assert(s[i + k] == s.subrange(c + 1, n)[k - 19 - ol - rl - fl]);
            }
        }
        assert(t =~= rendered(p));
    }
    if parts_wf(p) && t == rendered(p) {
        assert(n - i == 19 + ol + rl + fl + pl);
        assert forall|k: int| 0 <= k < 11 implies s.subrange(i, i + 11)[k] == host_marker()[k] by {
            lemma_rendered_index(p, k);
            assert(t[k] == s[i + k]);
        }
        assert(s.subrange(i, i + 11) =~= host_marker());
        assert forall|k: int| 0 <= k < ol implies s.subrange(i + 11, a)[k] == p.owner[k] by {
            lemma_rendered_index(p, 11 + k);
            assert(t[11 + k] == s[i + 11 + k]);
        }
        assert(s.subrange(i + 11, a) =~= p.owner);
        lemma_rendered_index(p, 11 + ol);
        assert(t[11 + ol] == s[a]);
        assert(s[a] == '/');
        assert forall|k: int| 0 <= k < rl implies s.subrange(a + 1, b)[k] == p.repo[k] by {
            lemma_rendered_index(p, 12 + ol + k);
            assert(t[12 + ol + k] == s[a + 1 + k]);
        }
        assert(s.subrange(a + 1, b) =~= p.repo);
        assert forall|k: int| 0 <= k < 6 implies s.subrange(b, b + 6)[k] == blob_marker()[k] by {
            lemma_rendered_index(p, 12 + ol + rl + k);
            assert(t[12 + ol + rl + k] == s[b + k]);
        }
        assert(s.subrange(b, b + 6) =~= blob_marker());
        assert forall|k: int| 0 <= k < fl implies s.subrange(b + 6, c)[k] == p.git_ref[k] by {
            lemma_rendered_index(p, 18 + ol + rl + k);
            assert(t[18 + ol + rl + k] == s[b + 6 + k]);
        }
        assert(s.subrange(b + 6, c) =~= p.git_ref);
        lemma_rendered_index(p, 18 + ol + rl + fl);
        assert(t[18 + ol + rl + fl] == s[c]);
        assert(s[c] == '/');
        assert forall|k: int| 0 <= k < pl implies s.subrange(c + 1, n)[k] == p.path[k] by {
            lemma_rendered_index(p, 19 + ol + rl + fl + k);
            assert(t[19 + ol + rl + fl + k] == s[c + 1 + k]);
        }
        assert(s.subrange(c + 1, n) =~= p.path);
        assert(match_at(s, i, p));
    }
}

/// The resolver's answer is determined by the input alone: at most one
/// set of components is the leftmost match of a given string.
pub proof fn lemma_resolves_to_unique(s: Seq<char>, p1: BlobParts, p2: BlobParts)
    requires
        resolves_to(s, p1),
        resolves_to(s, p2),
    ensures
        p1 == p2,
{
    let i1 = choose|i: int| leftmost_match(s, i, p1);
    let i2 = choose|i: int| leftmost_match(s, i, p2);
    if i1 < i2 {
        assert(match_at(s, i1, p1));
        assert(match_from(s, i1));
        assert(false);
    } else if i2 < i1 {
        assert(match_at(s, i2, p2));
        assert(match_from(s, i2));
        assert(false);
    }
    lemma_match_at_unique(s, i1, p1, p2);
}

/// Parsing is all-or-nothing: whatever the resolver extracts is
/// well-formed, with all four components non-empty and the first three
/// free of `/`.
pub proof fn lemma_resolved_parts_wf(s: Seq<char>, p: BlobParts)
    requires
        resolves_to(s, p),
    ensures
        parts_wf(p),
{
    let i = choose|i: int| leftmost_match(s, i, p);
    assert(match_at(s, i, p));
}

/// A string that carries the well-formed components `p` rendered at
/// position `i`, with no match before `i`, resolves to exactly `p`:
/// together with `resolve`'s contract, a blob URL built from four
/// components hands back those components verbatim and no others.
pub proof fn lemma_resolve_verbatim(s: Seq<char>, i: int, p: BlobParts)
    requires
        0 <= i <= s.len(),
        parts_wf(p),
        s.subrange(i, s.len() as int) == rendered(p),
        forall|j: int| 0 <= j < i ==> !match_from(s, j),
    ensures
        resolves_to(s, p),
        forall|q: BlobParts| resolves_to(s, q) ==> q == p,
{
    lemma_match_at_iff_rendered(s, i, p);
    assert(leftmost_match(s, i, p));
    assert(resolves_to(s, p));
    assert forall|q: BlobParts| resolves_to(s, q) implies q == p by {
        lemma_resolves_to_unique(s, p, q);
    }
}

/// Finds the first `/` at or after `from`, scanning character by
/// character.
fn find_slash(url: &str, n: usize, from: usize) -> (r: Option<usize>)
    requires
        n == url@.len(),
        from <= n,
    ensures
        match r {
            Some(j) => first_slash_from(url@, from as int, j as int),
            None => no_slash_from(url@, from as int),
        },
{
    let mut j = from;
    while j < n
        invariant
            n == url@.len(),
            from <= j <= n,
            forall|k: int| from <= k < j ==> url@[k] != '/',
        decreases n - j,
    {
        if url.get_char(j) == '/' {
            return Some(j);
        }
        j = j + 1;
    }
    None
}

/// Attempts the blob pattern at position `i` alone; on success the
/// returned components witness a match at `i`, on failure no components
/// match at `i`.
fn try_match_at(url: &str, n: usize, i: usize) -> (r: Option<RepoFileRef>)
    requires
        n == url@.len(),
        i + 23 <= n,
    ensures
        match r {
            Some(rf) => match_at(url@, i as int, rf@),
            None => !match_from(url@, i as int),
        },
{
    let m = "github.com/";
    proof {
        reveal_strlit("github.com/");
    }
    let mut k: usize = 0;
    while k < 11
        invariant
            n == url@.len(),
            i + 23 <= n,
            m@ == host_marker(),
            m@.len() == 11,
            k <= 11,
            forall|t: int| 0 <= t < k ==> url@[i + t] == host_marker()[t],
        decreases 11 - k,
    {
        if url.get_char(i + k) != m.get_char(k) {
            proof {
                lemma_no_match_marker(url@, i as int, k as int);
            }
            return None;
        }
        k = k + 1;
    }
    let p0 = i + 11;
    let a = match find_slash(url, n, p0) {
        Some(a) => a,
        None => {
            proof {
                lemma_no_match_owner_missing(url@, i as int);
            }
            return None;
        },
    };
    if a == p0 {
        proof {
            lemma_no_match_owner_empty(url@, i as int);
        }
        return None;
    }
    let b = match find_slash(url, n, a + 1) {
        Some(b) => b,
        None => {
            proof {
                lemma_no_match_repo_missing(url@, i as int, a as int);
            }
            return None;
        },
    };
    if b == a + 1 {
        proof {
            lemma_no_match_repo_empty(url@, i as int, a as int);
        }
        return None;
    }
    if n - b < 9 {
        proof {
            lemma_no_match_short_tail(url@, i as int, a as int, b as int);
        }
        return None;
    }
    let bm = "/blob/";
    proof {
        reveal_strlit("/blob/");
    }
    let mut t: usize = 0;
    while t < 6
        invariant
            n == url@.len(),
            b + 9 <= n,
            bm@ == blob_marker(),
            bm@.len() == 6,
            t <= 6,
            forall|u: int| 0 <= u < t ==> url@[b + u] == blob_marker()[u],
            i + 11 < a,
            first_slash_from(url@, i + 11, a as int),
            first_slash_from(url@, a + 1, b as int),
        decreases 6 - t,
    {
        if url.get_char(b + t) != bm.get_char(t) {
            proof {
                lemma_no_match_blob(url@, i as int, a as int, b as int, t as int);
            }
            return None;
        }
        t = t + 1;
    }
    let c = match find_slash(url, n, b + 6) {
        Some(c) => c,
        None => {
            proof {
                lemma_no_match_ref_missing(url@, i as int, a as int, b as int);
            }
            return None;
        },
    };
    if c == b + 6 {
        proof {
            lemma_no_match_ref_empty(url@, i as int, a as int, b as int);
        }
        return None;
    }
    if c + 1 == n {
        proof {
            lemma_no_match_path_empty(url@, i as int, a as int, b as int, c as int);
        }
        return None;
    }
    let owner_s = url.substring_char(p0, a);
    let repo_s = url.substring_char(a + 1, b);
    let ref_s = url.substring_char(b + 6, c);
    let path_s = url.substring_char(c + 1, n);
    let rf = RepoFileRef {
        owner: String::from_str(owner_s),
        repo: String::from_str(repo_s),
        git_ref: String::from_str(ref_s),
        path: String::from_str(path_s),
    };
    proof {
        let s = url@;
        let ii = i as int;
        let aa = a as int;
        let bb = b as int;
        assert(s.subrange(ii, ii + 11) =~= host_marker());
        assert forall|q: int| 0 <= q < rf@.owner.len() implies rf@.owner[q] != '/' by {
            assert(rf@.owner[q] == s[ii + 11 + q]);
        }
        assert forall|q: int| 0 <= q < rf@.repo.len() implies rf@.repo[q] != '/' by {
            assert(rf@.repo[q] == s[aa + 1 + q]);
        }
        assert forall|q: int| 0 <= q < rf@.git_ref.len() implies rf@.git_ref[q] != '/' by {
            assert(rf@.git_ref[q] == s[bb + 6 + q]);
        }
        assert(s.subrange(bb, bb + 6) =~= blob_marker());
        assert(match_at(s, ii, rf@));
    }
    Some(rf)
}

/// Parses a GitHub blob URL into its four components.
///
/// Succeeds exactly when the blob pattern
/// `github.com/{owner}/{repo}/blob/{ref}/{path}` matches somewhere in the
/// input, whatever precedes it (an `https://` or `http://` scheme, or
/// nothing), and returns the components of the leftmost match. The ref and
/// path meet at the first `/` after `blob/`, so a branch name containing
/// `/` is split there rather than recognised whole. When no position
/// matches, fails with `MalformedUrl` and returns nothing partial.
pub fn resolve(url: &str) -> (r: Result<RepoFileRef, FetchError>)
    ensures
        match r {
            Ok(rf) => resolves_to(url@, rf@),
            Err(e) => {
                &&& e == FetchError::MalformedUrl
                &&& forall|i: int| !match_from(url@, i)
            },
        },
{
    let n = url.unicode_len();
    if n < 23 {
        proof {
            assert forall|i: int| !match_from(url@, i) by {
                lemma_no_match_out_of_range(url@, i);
            }
        }
        return Err(FetchError::MalformedUrl);
    }
    let mut i: usize = 0;
    while i <= n - 23
        invariant
            n == url@.len(),
            23 <= n,
            i <= n,
            forall|j: int| 0 <= j < i ==> !match_from(url@, j),
        decreases n - i,
    {
        match try_match_at(url, n, i) {
            Some(rf) => {
                proof {
                    assert(leftmost_match(url@, i as int, rf@));
                    assert(resolves_to(url@, rf@));
                }
                return Ok(rf);
            },
            None => {
            },
        }
        i = i + 1;
    }
    proof {
        assert forall|j: int| !match_from(url@, j) by {
            if 0 <= j < i {
            } else {
                lemma_no_match_out_of_range(url@, j);
            }
        }
    }
    Err(FetchError::MalformedUrl)
}

} // verus!
