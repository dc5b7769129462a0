//! Source and target locations: `file://` URLs and the local paths behind
//! them, read with the `url` crate.

use vstd::prelude::*;
use crate::text::{chars_of, chars_eq, string_from_chars};
use crate::def::{BuckyBackupError, spec_starts_with, starts_with_chars};
use crate::path_helper::{spec_backslash_to_slash, spec_split, lemma_split_len};
use crate::task_flow::{str_trim, trim_text};
use crate::rpc_params::{RpcError, parse_error};

verus! {

/// The text of the `file:` URL that `url::Url::from_file_path` makes of an
/// absolute path.
pub uninterp spec fn file_url_text(path: Seq<char>) -> Seq<char>;

/// What `url::Url::parse` makes of a text, read through `Url::path`: the
/// URL's path, or the parse error's message.
pub uninterp spec fn url_path_result(s: Seq<char>) -> Result<Seq<char>, Seq<char>>;

/// Parses a URL with `url::Url::parse` and gives its path (`Url::path`),
/// or the parse error's message (its `Display` text).
///
/// Claims only that the outcome is the named one for `s`: parsing depends
/// on the text alone.
#[verifier::external_body]
fn parse_url_path(s: &str) -> (r: Result<String, String>)
    ensures
        match r {
            Ok(p) => url_path_result(s@) == Ok::<Seq<char>, Seq<char>>(p@),
            Err(m) => url_path_result(s@) == Err::<Seq<char>, Seq<char>>(m@),
        },
{
    match url::Url::parse(s) {
        Ok(u) => Ok(u.path().to_string()),
        Err(e) => Err(e.to_string()),
    }
}

/// Parses a URL with `url::Url::parse` and gives the local path it names
/// (`Url::to_file_path`, read lossily as text), `Some(None)` where the
/// crate refuses that.
///
/// Claims that the parse fails exactly where `parse_url_path`'s does (the
/// same `Url::parse` of the same text). Which local path comes out is left
/// unsaid: `to_file_path` differs between Unix and Windows builds.
#[verifier::external_body]
fn parse_url_file_path(s: &str) -> (r: Option<Option<String>>)
    ensures
        r is None <==> url_path_result(s@) is Err,
{
    match url::Url::parse(s) {
        Ok(u) => Some(u.to_file_path().ok().map(|p| p.to_string_lossy().to_string())),
        Err(_) => None,
    }
}

/// The `file:` URL of a path, through `url::Url::from_file_path` and the
/// URL's text. On Unix the crate makes a URL exactly of absolute paths, those
/// that start with a slash; the claim is that and the named text.
#[verifier::external_body]
pub(crate) fn file_url_of_path(path: &str) -> (r: Option<String>)
    ensures
        r is Some <==> (path@.len() > 0 && path@[0] == '/'),
        r matches Some(u) ==> u@ == file_url_text(path@),
{
    url::Url::from_file_path(path).ok().map(|u| u.to_string())
}

/// The local path of a location: the path part of a `file://` URL (an
/// unparsable one is refused with the parser's message), any other text as
/// it is.
pub open spec fn spec_local_path_of(url: Seq<char>) -> Result<Seq<char>, Seq<char>> {
    if spec_starts_with(url, "file://"@) {
        url_path_result(url)
    } else {
        Ok(url)
    }
}

/// The local path of a location (see `spec_local_path_of`).
pub fn translate_local_path_from_url(url: &str) -> (r: Result<String, BuckyBackupError>)
    ensures
        match spec_local_path_of(url@) {
            Ok(p) => r matches Ok(x) && x@ == p,
            Err(m) => r matches Err(BuckyBackupError::Failed(x)) && x@ == m,
        },
{
    let text = chars_of(url);
    let scheme = chars_of("file://");
    if starts_with_chars(&text, &scheme) {
        match parse_url_path(url) {
            Ok(p) => Ok(p),
            Err(m) => Err(BuckyBackupError::Failed(m)),
        }
    } else {
        Ok(String::from_str(url))
    }
}

/// A path piece as `PathBuf::push` adds it below the root: nothing for an
/// empty piece, else a slash and the piece.
pub open spec fn spec_rooted_piece(seg: Seq<char>) -> Seq<char> {
    if seg.len() == 0 {
        Seq::empty()
    } else {
        seq!['/'] + seg
    }
}

/// The pieces pushed one after another onto the root.
pub open spec fn spec_rooted(segs: Seq<Seq<char>>) -> Seq<char>
    decreases segs.len(),
{
    if segs.len() == 0 {
        Seq::empty()
    } else {
        spec_rooted(segs.drop_last()) + spec_rooted_piece(segs.last())
    }
}

/// The local path a request names: the trimmed text with backslashes read
/// as slashes, its non-empty pieces placed below the root `/`.
pub open spec fn spec_resolve_requested_path(raw: Seq<char>) -> Seq<char> {
    let r = spec_rooted(spec_split(spec_backslash_to_slash(str_trim(raw)), '/'));
    if r.len() == 0 {
        seq!['/']
    } else {
        r
    }
}

/// Resolves a requested path on a Unix host (see
/// `spec_resolve_requested_path`).
pub fn resolve_requested_path(raw: &str) -> (r: String)
    ensures
        r@ == spec_resolve_requested_path(raw@),
        r@.len() > 0 && r@[0] == '/',
{
    let trimmed = trim_text(raw);
    let t = chars_of(trimmed.as_str());
    let ghost s = spec_backslash_to_slash(t@);
    let mut out: Vec<char> = Vec::new();
    let mut cur: Vec<char> = Vec::new();
    let mut i: usize = 0;
    proof {
        assert(s.take(0) =~= Seq::<char>::empty());
        assert(spec_split(s.take(0), '/').drop_last() =~= Seq::<Seq<char>>::empty());
    }
    while i < t.len()
        invariant
            i <= t@.len(),
            s == spec_backslash_to_slash(t@),
            out@ == spec_rooted(spec_split(s.take(i as int), '/').drop_last()),
            cur@ == spec_split(s.take(i as int), '/').last(),
            spec_split(s.take(i as int), '/').len() >= 1,
            out@.len() == 0 || out@[0] == '/',
        decreases t.len() - i,
    {
        let c = if t[i] == '\\' { '/' } else { t[i] };
        let ghost prev = spec_split(s.take(i as int), '/');
        proof {
            assert(s.take(i + 1).drop_last() =~= s.take(i as int));
            assert(s.take(i + 1).last() == c);
            lemma_split_len(s.take(i + 1), '/');
        }
        if c == '/' {
            if cur.len() > 0 {
                let ghost before = out@;
                out.push('/');
                let mut k: usize = 0;
                while k < cur.len()
                    invariant
                        k <= cur@.len(),
                        out@ == before + seq!['/'] + cur@.take(k as int),
                    decreases cur.len() - k,
                {
                    out.push(cur[k]);
                    assert(cur@.take(k + 1) =~= cur@.take(k as int).push(cur@[k as int]));
                    k = k + 1;
                }
                assert(cur@.take(cur@.len() as int) =~= cur@);
            }
            proof {
                let next = prev.push(Seq::<char>::empty());
                assert(spec_split(s.take(i + 1), '/') == next);
                assert(next.drop_last() =~= prev);
                assert(prev =~= prev.drop_last().push(prev.last()));
                assert(spec_rooted(prev) == spec_rooted(prev.drop_last()) + spec_rooted_piece(
                    prev.last(),
                ));
                assert(out@ =~= spec_rooted(prev));
            }
            cur = Vec::new();
            proof {
                assert(cur@ =~= Seq::<char>::empty());
            }
        } else {
            cur.push(c);
            proof {
                let next = prev.update(prev.len() - 1, prev.last().push(c));
                assert(spec_split(s.take(i + 1), '/') == next);
                assert(next.drop_last() =~= prev.drop_last());
            }
        }
        i = i + 1;
    }
    proof {
        assert(s.take(t@.len() as int) =~= s);
    }
    let ghost segs = spec_split(s, '/');
    if cur.len() > 0 {
        out.push('/');
        let ghost before = out@;
        let mut k: usize = 0;
        while k < cur.len()
            invariant
                k <= cur@.len(),
                out@ == before + cur@.take(k as int),
            decreases cur.len() - k,
        {
            out.push(cur[k]);
            assert(cur@.take(k + 1) =~= cur@.take(k as int).push(cur@[k as int]));
            k = k + 1;
        }
        assert(cur@.take(cur@.len() as int) =~= cur@);
    }
    proof {
        assert(segs =~= segs.drop_last().push(segs.last()));
        assert(spec_rooted(segs) == spec_rooted(segs.drop_last()) + spec_rooted_piece(segs.last()));
        assert(out@ =~= spec_rooted(segs));
    }
    if out.len() == 0 {
        out.push('/');
        assert(out@ =~= seq!['/']);
    }
    string_from_chars(&out)
}

fn refuse(m: &str) -> (e: RpcError)
    ensures
        e@ == parse_error(m@),
{
    RpcError::ParseRequestError(String::from_str(m))
}

/// What a `file://` location comes to, given what the URL crate made of it
/// (see `parse_url_file_path`): the local path it names; a refusal when it
/// parsed but names no local path; another when it did not parse.
pub fn file_path_outcome(parsed: Option<Option<String>>) -> (r: Result<String, RpcError>)
    ensures
        match parsed {
            Some(Some(p)) => r matches Ok(d) && d@ == p@,
            Some(None) => r matches Err(e) && e@ == parse_error(
                "source must point to a local filesystem path"@,
            ),
            None => r matches Err(e) && e@ == parse_error("source must be a valid file URL"@),
        },
{
    match parsed {
        Some(Some(p)) => Ok(p),
        Some(None) => Err(refuse("source must point to a local filesystem path")),
        None => Err(refuse("source must be a valid file URL")),
    }
}

/// The source of a new plan given as a `file://` URL, given what the URL
/// crate made of it: the URL itself for the engine and the local path it
/// names for display; otherwise the refusal `file_path_outcome` gives.
pub fn plan_source_from_file_url(source_raw: &str, parsed: Option<Option<String>>) -> (r: Result<
    (String, String),
    RpcError,
>)
    ensures
        match parsed {
            Some(Some(p)) => r matches Ok((u, d)) && u@ == source_raw@ && d@ == p@,
            Some(None) => r matches Err(e) && e@ == parse_error(
                "source must point to a local filesystem path"@,
            ),
            None => r matches Err(e) && e@ == parse_error("source must be a valid file URL"@),
        },
{
    match file_path_outcome(parsed) {
        Ok(display) => Ok((String::from_str(source_raw), display)),
        Err(e) => Err(e),
    }
}

/// The URL of a new target given as a `file://` URL (already adjusted, see
/// `spec_adjusted_target_url`), given what the URL crate made of it: kept
/// when it names a local path; otherwise the refusal `file_path_outcome`
/// gives.
pub fn target_url_from_file_url(adjusted: String, parsed: Option<Option<String>>) -> (r: Result<
    String,
    RpcError,
>)
    ensures
        match parsed {
            Some(Some(_)) => r matches Ok(u) && u@ == adjusted@,
            Some(None) => r matches Err(e) && e@ == parse_error(
                "source must point to a local filesystem path"@,
            ),
            None => r matches Err(e) && e@ == parse_error("source must be a valid file URL"@),
        },
{
    match file_path_outcome(parsed) {
        Ok(_) => Ok(adjusted),
        Err(e) => Err(e),
    }
}

/// The source of a new plan: the URL the engine reads and the path shown to
/// users. A `file://` URL is kept when it names a local path (see
/// `plan_source_from_file_url`, which is handed what the URL crate made of
/// it; which local path that is depends on the platform); any other text is
/// resolved to a local path and turned into its `file:` URL.
pub fn resolve_plan_source(source_raw: &str) -> (r: Result<(String, String), RpcError>)
    ensures
        !spec_starts_with(source_raw@, "file://"@) ==> (r matches Ok((u, d)) && d@
            == spec_resolve_requested_path(source_raw@) && u@ == file_url_text(d@)),
        spec_starts_with(source_raw@, "file://"@) ==> match r {
            Ok((u, _)) => u@ == source_raw@ && url_path_result(source_raw@) is Ok,
            Err(e) => if url_path_result(source_raw@) is Err {
                e@ == parse_error("source must be a valid file URL"@)
            } else {
                e@ == parse_error("source must point to a local filesystem path"@)
            },
        },
{
    if starts_with_chars(&chars_of(source_raw), &chars_of("file://")) {
        plan_source_from_file_url(source_raw, parse_url_file_path(source_raw))
    } else {
        let resolved = resolve_requested_path(source_raw);
        match file_url_of_path(resolved.as_str()) {
            Some(u) => Ok((u, resolved)),
            None => {
                let mut m = String::from_str("invalid source path: ");
                m.append(source_raw);
                Err(RpcError::ParseRequestError(m))
            },
        }
    }
}

/// The URL of a new target as stored: on Unix a `file` target's URL gets a
/// leading slash when it has none.
pub open spec fn spec_adjusted_target_url(target_type: Seq<char>, url: Seq<char>) -> Seq<char> {
    if target_type == "file"@ && !spec_starts_with(url, "/"@) {
        "/"@ + url
    } else {
        url
    }
}

/// Checks the URL of a new target and returns it as stored (see
/// `spec_adjusted_target_url`): a `file://` URL must name a local path (see
/// `target_url_from_file_url`, which is handed what the URL crate made of
/// it); any other text always resolves to one.
pub fn check_target_url(target_type: &str, url: &str) -> (r: Result<String, RpcError>)
    ensures
        !spec_starts_with(spec_adjusted_target_url(target_type@, url@), "file://"@) ==> (r matches Ok(
            u,
        ) && u@ == spec_adjusted_target_url(target_type@, url@)),
        match r {
            Ok(u) => u@ == spec_adjusted_target_url(target_type@, url@) && (spec_starts_with(
                u@,
                "file://"@,
            ) ==> url_path_result(u@) is Ok),
            Err(e) => if url_path_result(spec_adjusted_target_url(target_type@, url@)) is Err {
                e@ == parse_error("source must be a valid file URL"@)
            } else {
                e@ == parse_error("source must point to a local filesystem path"@)
            },
        },
{
    let text = chars_of(url);
    let slash = chars_of("/");
    let is_file = chars_eq(&chars_of(target_type), &chars_of("file"));
    let adjusted = if is_file && !starts_with_chars(&text, &slash) {
        let mut a = String::from_str("/");
        a.append(url);
        a
    } else {
        String::from_str(url)
    };
    if starts_with_chars(&chars_of(adjusted.as_str()), &chars_of("file://")) {
        let parsed = parse_url_file_path(adjusted.as_str());
        target_url_from_file_url(adjusted, parsed)
    } else {
        let resolved = resolve_requested_path(adjusted.as_str());
        match file_url_of_path(resolved.as_str()) {
            Some(_) => Ok(adjusted),
            None => {
                let mut m = String::from_str("invalid source path: ");
                m.append(adjusted.as_str());
                Err(RpcError::ParseRequestError(m))
            },
        }
    }
}

} // verus!
