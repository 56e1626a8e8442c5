use vstd::prelude::*;

verus! {

/// Where the game's assets live.
pub enum AssetRoot {
    /// Assets are embedded in the binary: paths are used as they are.
    Bundled,
    /// Assets are files under `assets_dir` (the `assets` folder under the
    /// base path of the asset reader; `assets` itself on the web).
    Directory { assets_dir: String },
}

/// The path with every backslash turned into a slash.
pub open spec fn forward_slashes(s: Seq<char>) -> Seq<char> {
    s.map_values(|c: char| if c == '\\' { '/' } else { c })
}

/// Whether `p` is an absolute path by the rules of the platform's paths
/// (on Unix-like systems and the web: it starts with `/`; on Windows: it
/// has a drive or share prefix and a root).
pub uninterp spec fn path_is_absolute_name(p: Seq<char>) -> bool;

/// `base` joined with `rel` by the rules of the platform's paths.
pub uninterp spec fn path_join(base: Seq<char>, rel: Seq<char>) -> Seq<char>;

/// The `assets/` prefix that bundled paths may carry.
pub open spec fn assets_prefix() -> Seq<char> {
    seq!['a', 's', 's', 'e', 't', 's', '/']
}

/// The path, relative to the assets folder, of `path` with the folder
/// `base` removed from its front, taking whole path components; `None`
/// when `base` is not a leading part of `path`.
pub uninterp spec fn path_strip_prefix(path: Seq<char>, base: Seq<char>) -> Option<Seq<char>>;

/// The absolute form of an asset path.
pub open spec fn rel_to_abs_spec(root: AssetRoot, rel: Seq<char>) -> Seq<char> {
    let normalized = forward_slashes(rel);
    match root {
        AssetRoot::Bundled => normalized,
        AssetRoot::Directory { assets_dir } => forward_slashes(
            if !path_is_absolute_name(normalized) {
                path_join(assets_dir@, normalized)
            } else {
                normalized
            },
        ),
    }
}

/// The asset-relative form of a path.
pub open spec fn abs_to_rel_spec(root: AssetRoot, abs: Seq<char>) -> Seq<char> {
    match root {
        AssetRoot::Bundled => {
            let normalized = forward_slashes(abs);
            if assets_prefix().is_prefix_of(normalized) {
                normalized.skip(7)
            } else {
                normalized
            }
        },
        AssetRoot::Directory { assets_dir } => match path_strip_prefix(abs, assets_dir@) {
            Some(stripped) => forward_slashes(stripped),
            None => forward_slashes(abs),
        },
    }
}

/// Calls `Path::strip_prefix` on `path` with `base` and renders the rest as
/// text. Its contract names the result and claims nothing else of it.
#[verifier::external_body]
fn strip_path_prefix(path: &str, base: &str) -> (r: Option<String>)
    ensures
        match r {
            Some(s) => path_strip_prefix(path@, base@) == Some(s@),
            None => path_strip_prefix(path@, base@) is None,
        },
{
    match std::path::Path::new(path).strip_prefix(base) {
        Ok(rest) => Some(rest.to_string_lossy().into_owned()),
        Err(_) => None,
    }
}

/// The text with every backslash turned into a slash.
pub fn to_forward_slashes(s: &str) -> (r: String)
    ensures
        r@ == forward_slashes(s@),
{
    let n = s.unicode_len();
    let mut out = String::new();
    let mut i: usize = 0;
    while i < n
        invariant
            n == s@.len(),
            i <= n,
            out@ == forward_slashes(s@.subrange(0, i as int)),
        decreases n - i,
    {
        let c = s.get_char(i);
        let ghost before = out@;
        if c == '\\' {
            proof {
                reveal_strlit("/");
            }
            out.append("/");
            assert("/"@ =~= seq!['/']);
        } else {
            let piece = s.substring_char(i, i + 1);
            assert(piece@ =~= seq![c]);
            out.append(piece);
        }
        assert(out@ =~= before.push(if c == '\\' { '/' } else { c }));
        assert(s@.subrange(0, i + 1) =~= s@.subrange(0, i as int).push(c));
        assert(out@ =~= forward_slashes(s@.subrange(0, i + 1)));
        i = i + 1;
    }
    assert(s@.subrange(0, n as int) =~= s@);
    out
}

/// Calls `Path::is_absolute` on `p`. Its contract names the result and
/// claims nothing else of it.
#[verifier::external_body]
fn path_is_absolute(p: &str) -> (r: bool)
    ensures
        r == path_is_absolute_name(p@),
{
    std::path::Path::new(p).is_absolute()
}

/// Calls `Path::join` (which pushes `rel` onto a copy of `base`) and renders
/// the joined path as text. Its contract names the result and claims
/// nothing else of it.
#[verifier::external_body]
fn join_paths(base: &str, rel: &str) -> (r: String)
    ensures
        r@ == path_join(base@, rel@),
{
    std::path::Path::new(base).join(rel).to_string_lossy().into_owned()
}

/// Whether the text starts with `assets/`.
fn has_assets_prefix(s: &str) -> (r: bool)
    ensures
        r == assets_prefix().is_prefix_of(s@),
{
    let n = s.unicode_len();
    if n < 7 {
        return false;
    }
    let r = s.get_char(0) == 'a' && s.get_char(1) == 's' && s.get_char(2) == 's' && s.get_char(3) == 'e'
        && s.get_char(4) == 't' && s.get_char(5) == 's' && s.get_char(6) == '/';
    assert(r ==> s@.subrange(0, 7) =~= assets_prefix());
    assert(assets_prefix().is_prefix_of(s@) ==> s@.subrange(0, 7) =~= assets_prefix());
    proof {
        if assets_prefix().is_prefix_of(s@) {
            assert(s@[0] == assets_prefix()[0]);
            assert(s@[1] == assets_prefix()[1]);
            assert(s@[2] == assets_prefix()[2]);
            assert(s@[3] == assets_prefix()[3]);
            assert(s@[4] == assets_prefix()[4]);
            assert(s@[5] == assets_prefix()[5]);
            assert(s@[6] == assets_prefix()[6]);
        }
    }
    r
}

/// Turns an asset path into the absolute path it names: backslashes become
/// slashes and, when assets are files, a relative path is placed under the
/// assets folder.
pub fn rel_asset_to_absolute(rel_string: &str, root: &AssetRoot) -> (r: String)
    ensures
        r@ == rel_to_abs_spec(*root, rel_string@),
{
    let normalized_rel = to_forward_slashes(rel_string);
    match root {
        AssetRoot::Bundled => normalized_rel,
        AssetRoot::Directory { assets_dir } => {
            let abs_path = if !path_is_absolute(normalized_rel.as_str()) {
                join_paths(assets_dir.as_str(), normalized_rel.as_str())
            } else {
                normalized_rel
            };
            to_forward_slashes(abs_path.as_str())
        },
    }
}

/// Turns an absolute path back into an asset path: the assets folder (or,
/// for bundled assets, an `assets/` prefix) is removed from its front and
/// backslashes become slashes.
pub fn absolute_asset_to_rel(abs_string: String, root: &AssetRoot) -> (r: String)
    ensures
        r@ == abs_to_rel_spec(*root, abs_string@),
{
    match root {
        AssetRoot::Bundled => {
            let normalized = to_forward_slashes(abs_string.as_str());
            if has_assets_prefix(normalized.as_str()) {
                let n = normalized.as_str().unicode_len();
                normalized.as_str().substring_char(7, n).to_owned()
            } else {
                normalized
            }
        },
        AssetRoot::Directory { assets_dir } => {
            match strip_path_prefix(abs_string.as_str(), assets_dir.as_str()) {
                Some(stripped) => to_forward_slashes(stripped.as_str()),
                None => to_forward_slashes(abs_string.as_str()),
            }
        },
    }
}

// ---------------------------------------------------------------------------
// Laws
// ---------------------------------------------------------------------------

/// No backslash is left after the separators are normalized.
pub open spec fn has_no_backslash(s: Seq<char>) -> bool {
    forall|i: int| 0 <= i < s.len() ==> s[i] != '\\'
}

proof fn lemma_forward_slashes_clean(s: Seq<char>)
    ensures
        has_no_backslash(forward_slashes(s)),
        forward_slashes(forward_slashes(s)) == forward_slashes(s),
        forward_slashes(s).len() == s.len(),
{
    assert(forward_slashes(forward_slashes(s)) =~= forward_slashes(s));
}

/// Both directions of the path mapping hand back paths that use only
/// forward slashes.
pub proof fn law_asset_paths_use_forward_slashes(root: AssetRoot, p: Seq<char>)
    ensures
        has_no_backslash(rel_to_abs_spec(root, p)),
        has_no_backslash(abs_to_rel_spec(root, p)),
{
    lemma_forward_slashes_clean(p);
    match root {
        AssetRoot::Bundled => {
            let n = forward_slashes(p);
            if assets_prefix().is_prefix_of(n) {
                assert forall|i: int| 0 <= i < n.skip(7).len() implies n.skip(7)[i] != '\\' by {
                    assert(n.skip(7)[i] == n[i + 7]);
                }
            }
        },
        AssetRoot::Directory { assets_dir } => {
            let n = forward_slashes(p);
            let joined = if !path_is_absolute_name(n) {
                path_join(assets_dir@, n)
            } else {
                n
            };
            lemma_forward_slashes_clean(joined);
            match path_strip_prefix(p, assets_dir@) {
                Some(stripped) => lemma_forward_slashes_clean(stripped),
                None => {},
            }
        },
    }
}

/// With bundled assets, an asset path that does not itself start with
/// `assets/` comes back unchanged (up to its separators) from a round trip.
pub proof fn law_bundled_round_trip(p: Seq<char>)
    requires
        !assets_prefix().is_prefix_of(forward_slashes(p)),
    ensures
        abs_to_rel_spec(AssetRoot::Bundled, rel_to_abs_spec(AssetRoot::Bundled, p)) == forward_slashes(p),
{
    lemma_forward_slashes_clean(p);
}

/// With bundled assets, an `assets/` prefix is removed and the rest kept.
pub proof fn law_bundled_strips_assets_prefix(q: Seq<char>)
    ensures
        abs_to_rel_spec(AssetRoot::Bundled, assets_prefix() + q) == forward_slashes(q),
{
    let n = forward_slashes(assets_prefix() + q);
    assert(n.subrange(0, 7) =~= assets_prefix());
    assert(assets_prefix().is_prefix_of(n));
    assert(n.skip(7) =~= forward_slashes(q));
}

proof fn lemma_forward_slashes_keeps_clean(s: Seq<char>)
    requires
        has_no_backslash(s),
    ensures
        forward_slashes(s) == s,
{
    assert(forward_slashes(s) =~= s);
}

/// Mapping an asset path whose absolute form is absolute a second time
/// changes nothing.
pub proof fn law_absolute_form_is_a_fixed_point(root: AssetRoot, p: Seq<char>)
    requires
        path_is_absolute_name(rel_to_abs_spec(root, p)),
    ensures
        rel_to_abs_spec(root, rel_to_abs_spec(root, p)) == rel_to_abs_spec(root, p),
{
    law_asset_paths_use_forward_slashes(root, p);
    lemma_forward_slashes_keeps_clean(rel_to_abs_spec(root, p));
}

/// When assets are files, an asset path without backslashes comes back
/// unchanged from a round trip through its absolute form, whenever it is
/// relative and removing the assets folder from the front of its joined
/// form (with slashes for separators) gives it back.
pub proof fn law_directory_round_trip(assets_dir: String, r: Seq<char>)
    requires
        has_no_backslash(r),
        !path_is_absolute_name(r),
        path_strip_prefix(forward_slashes(path_join(assets_dir@, r)), assets_dir@) == Some(r),
    ensures
        abs_to_rel_spec(
            AssetRoot::Directory { assets_dir },
            rel_to_abs_spec(AssetRoot::Directory { assets_dir }, r),
        ) == r,
{
    lemma_forward_slashes_keeps_clean(r);
}

} // verus!
