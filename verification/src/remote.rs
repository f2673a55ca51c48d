//! Remote header inspection over HTTP range requests: the URLs, the
//! `Content-Range` values and the state of a lazily fetched byte window.
//!
//! The transport itself (sending requests, reading bodies) is driven from
//! outside; every decision it asks for is made here.
use vstd::prelude::*;

use crate::header::GgufHeader;
use crate::plan::join;
use crate::summary::{GgufModelSummary, summarizes, tensor_seq};
use crate::summary_spec::weights_total;
use crate::text::{
    chars_before, chars_less, lemma_chars_before_irreflexive, lemma_chars_before_total,
    lemma_chars_before_trans, ascii_upper, is_digit, lemma_decimal_digits, lemma_first_index_after,
    lemma_parse_decimal, lemma_trim_untouched, ascii_uppercase, chars_of, contains, decimal, find, find_chars, first_index_of, has_prefix,
    has_substring, index_of_char, int_error_message, occurs_at, parse_u64, parse_u64_chars,
    push_decimal, same_chars, slice_range, starts_with, string_of, trim, trim_chars,
};

verus! {

/// Bytes fetched by the first range request; the window doubles after every
/// full fetch up to [`MAX_CHUNK_BYTES`].
pub const INITIAL_CHUNK_BYTES: u64 = 4 * 1024 * 1024;

/// Largest range request.
pub const MAX_CHUNK_BYTES: u64 = 16 * 1024 * 1024;

/// Default ceiling on the bytes pulled over the network for one header.
pub const DEFAULT_TRANSFER_CAP_BYTES: u64 = 32 * 1024 * 1024;

/// Redirects followed while resolving the file URL.
pub const MAX_REDIRECTS: usize = 5;

/// The HuggingFace resolve URL of a file in a repository.
pub open spec fn resolve_url_of(repo_id: Seq<char>, filename: Seq<char>) -> Seq<char> {
    "https://huggingface.co/"@ + repo_id + "/resolve/main/"@ + filename
}

/// The HuggingFace resolve URL of `filename` in `repo_id`.
pub fn resolve_url(repo_id: &str, filename: &str) -> (s: String)
    ensures
        s@ == resolve_url_of(repo_id@, filename@),
{
    let mut s = String::from_str("https://huggingface.co/");
    s.append(repo_id);
    s.append("/resolve/main/");
    s.append(filename);
    s
}

/// What a `Content-Range` value `bytes first-last/total` gives: the first
/// byte and the total size, or why it cannot be read.
pub open spec fn content_range_total(value: Seq<char>) -> Result<(u64, u64), Seq<char>> {
    let t = trim(value);
    if !starts_with(t, "bytes "@) {
        Err("missing 'bytes ' unit"@)
    } else {
        let rest = t.subrange(6, t.len() as int);
        match first_index_of(rest, '/') {
            None => Err("missing '/' separator"@),
            Some(i) => {
                let range_part = rest.take(i);
                let total_part = rest.subrange(i + 1, rest.len() as int);
                match first_index_of(range_part, '-') {
                    None => Err("missing '-' in range"@),
                    Some(j) => match parse_u64(trim(range_part.take(j))) {
                        Err(e) => Err("bad range start: "@ + int_error_message(e)),
                        Ok(first) => if trim(total_part) == "*"@ {
                            Err("unknown total ('*')"@)
                        } else {
                            match parse_u64(trim(total_part)) {
                                Err(e) => Err("bad total size: "@ + int_error_message(e)),
                                Ok(total) => Ok((first, total)),
                            }
                        },
                    },
                }
            },
        }
    }
}

fn error_with(prefix: &str, detail: &str) -> (s: String)
    ensures
        s@ == prefix@ + detail@,
{
    let mut s = String::from_str(prefix);
    s.append(detail);
    s
}

/// Parses `"bytes first-last/total"` from a `Content-Range` header value.
pub fn parse_content_range_total(value: &str) -> (r: Result<(u64, u64), String>)
    ensures
        match content_range_total(value@) {
            Ok(p) => r matches Ok(q) && q == p,
            Err(m) => r matches Err(e) && e@ == m,
        },
{
    let t = trim_chars(chars_of(value).as_slice());
    let unit = chars_of("bytes ");
    proof {
        reveal_strlit("bytes ");
    }
    if !has_prefix(t.as_slice(), unit.as_slice()) {
        return Err(String::from_str("missing 'bytes ' unit"));
    }
    let rest = slice_range(t.as_slice(), 6, t.len());
    let slash = match index_of_char(rest.as_slice(), '/') {
        Some(i) => i,
        None => {
            return Err(String::from_str("missing '/' separator"));
        },
    };
    let range_part = slice_range(rest.as_slice(), 0, slash);
    let total_part = slice_range(rest.as_slice(), slash + 1, rest.len());
    assert(range_part@ =~= rest@.take(slash as int));
    let dash = match index_of_char(range_part.as_slice(), '-') {
        Some(j) => j,
        None => {
            return Err(String::from_str("missing '-' in range"));
        },
    };
    let start_part = slice_range(range_part.as_slice(), 0, dash);
    assert(start_part@ =~= range_part@.take(dash as int));
    let start_chars = trim_chars(start_part.as_slice());
    let first = match parse_u64_chars(start_chars.as_slice()) {
        Ok(v) => v,
        Err(e) => {
            let msg = e.message();
            return Err(error_with("bad range start: ", msg.as_str()));
        },
    };
    let total_chars = trim_chars(total_part.as_slice());
    let star = chars_of("*");
    if same_chars(total_chars.as_slice(), star.as_slice()) {
        return Err(String::from_str("unknown total ('*')"));
    }
    match parse_u64_chars(total_chars.as_slice()) {
        Ok(total) => Ok((first, total)),
        Err(e) => {
            let msg = e.message();
            Err(error_with("bad total size: ", msg.as_str()))
        },
    }
}

/// Where a `Location` header leads from the URL it came from: absolute URLs
/// as they are, root-relative paths joined at the base's authority.
pub open spec fn joined_redirect(base: Seq<char>, location: Seq<char>) -> Result<Seq<char>, Seq<char>> {
    let loc = trim(location);
    if loc.len() == 0 {
        Err("empty redirect Location"@)
    } else if starts_with(loc, "http://"@) || starts_with(loc, "https://"@) {
        Ok(loc)
    } else {
        match find(base, "://"@) {
            None => Err(
                "cannot resolve relative redirect '"@ + loc + "' against '"@ + base + "'"@,
            ),
            Some(se) => {
                let after = base.subrange(se + 3, base.len() as int);
                let ae = match first_index_of(after, '/') {
                    Some(k) => k,
                    None => after.len() as int,
                };
                if loc[0] == '/' {
                    Ok(base.take(se) + "://"@ + after.take(ae) + loc)
                } else {
                    Err(
                        "unsupported relative redirect '"@ + loc
                            + "' (expected absolute or root-relative)"@,
                    )
                }
            },
        }
    }
}

/// Resolves a `Location` header against the URL it came from.
pub fn join_redirect_url(base: &str, location: &str) -> (r: Result<String, String>)
    ensures
        match joined_redirect(base@, location@) {
            Ok(u) => r matches Ok(s) && s@ == u,
            Err(m) => r matches Err(e) && e@ == m,
        },
{
    let loc = trim_chars(chars_of(location).as_slice());
    if loc.len() == 0 {
        return Err(String::from_str("empty redirect Location"));
    }
    let http = chars_of("http://");
    let https = chars_of("https://");
    if has_prefix(loc.as_slice(), http.as_slice()) || has_prefix(loc.as_slice(), https.as_slice()) {
        return Ok(string_of(loc.as_slice()));
    }
    let loc_text = string_of(loc.as_slice());
    let b = chars_of(base);
    let sep = chars_of("://");
    proof {
        reveal_strlit("://");
    }
    match find_chars(b.as_slice(), sep.as_slice()) {
        None => {
            let mut m = String::from_str("cannot resolve relative redirect '");
            m.append(loc_text.as_str());
            m.append("' against '");
            m.append(base);
            m.append("'");
            Err(m)
        },
        Some(se) => {
            assert(sep@.len() == 3);
            assert(occurs_at(b@, sep@, se as int));
            let blen = b.len();
            let after = slice_range(b.as_slice(), se + 3, blen);
            let ae = match index_of_char(after.as_slice(), '/') {
                Some(k) => k,
                None => after.len(),
            };
            if loc[0] == '/' {
                let scheme = slice_range(b.as_slice(), 0, se);
                let authority = slice_range(after.as_slice(), 0, ae);
                assert(scheme@ =~= b@.take(se as int));
                assert(authority@ =~= after@.take(ae as int));
                let mut out = string_of(scheme.as_slice());
                out.append("://");
                let auth_text = string_of(authority.as_slice());
                out.append(auth_text.as_str());
                out.append(loc_text.as_str());
                Ok(out)
            } else {
                let mut m = String::from_str("unsupported relative redirect '");
                m.append(loc_text.as_str());
                m.append("' (expected absolute or root-relative)");
                Err(m)
            }
        },
    }
}

/// Single files sort before shards of a split set; within each group,
/// names sort by [`chars_before`].
pub open spec fn shard_key_before(a: Seq<char>, b: Seq<char>) -> bool {
    let sa = contains(a, "-of-"@);
    let sb = contains(b, "-of-"@);
    (!sa && sb) || (sa == sb && chars_before(a, b))
}

/// A file name matches a quant variant when its ASCII uppercase contains the
/// uppercase variant.
pub open spec fn quant_matches(name: Seq<char>, needle: Seq<char>) -> bool {
    contains(ascii_upper(name), needle)
}

/// Some file matches the quant variant.
pub open spec fn any_quant_match(names: Seq<Seq<char>>, needle: Seq<char>) -> bool {
    exists|k: int| 0 <= k < names.len() && #[trigger] quant_matches(names[k], needle)
}

/// Among the first `n` names, `i` is the first matching one with the smallest key.
pub open spec fn is_pick_upto(names: Seq<Seq<char>>, needle: Seq<char>, i: int, n: int) -> bool {
    &&& 0 <= i < n
    &&& quant_matches(names[i], needle)
    &&& forall|k: int|
        0 <= k < n && #[trigger] quant_matches(names[k], needle) ==> !shard_key_before(
            names[k],
            names[i],
        )
    &&& forall|k: int|
        0 <= k < i && #[trigger] quant_matches(names[k], needle) ==> shard_key_before(
            names[i],
            names[k],
        )
}

/// The file a quant variant picks: the first matching one with the smallest
/// key, as a stable sort by that key would put first.
pub open spec fn is_pick(names: Seq<Seq<char>>, needle: Seq<char>, i: int) -> bool {
    i < names.len() && is_pick_upto(names, needle, i, names.len() as int)
}

/// The names of a repository file listing.
pub open spec fn file_names(files: Seq<(String, u64)>) -> Seq<Seq<char>> {
    files.map_values(|f: (String, u64)| f.0@)
}

proof fn lemma_key_irreflexive(a: Seq<char>)
    ensures
        !shard_key_before(a, a),
{
    lemma_chars_before_irreflexive(a);
}

proof fn lemma_key_trans(a: Seq<char>, b: Seq<char>, c: Seq<char>)
    requires
        shard_key_before(a, b),
        shard_key_before(b, c),
    ensures
        shard_key_before(a, c),
{
    if chars_before(a, b) && chars_before(b, c) {
        lemma_chars_before_trans(a, b, c);
    }
}

proof fn lemma_key_total(a: Seq<char>, b: Seq<char>)
    ensures
        a == b || shard_key_before(a, b) || shard_key_before(b, a),
{
    lemma_chars_before_total(a, b);
}

/// The index of the file a quant variant picks, if any file matches.
pub fn pick_quant_file(files: &Vec<(String, u64)>, needle: &[char]) -> (r: Option<usize>)
    ensures
        match r {
            Some(i) => is_pick(file_names(files@), needle@, i as int),
            None => !any_quant_match(file_names(files@), needle@),
        },
{
    let ghost names = file_names(files@);
    let of = chars_of("-of-");
    let mut best: Option<usize> = None;
    let mut best_sharded = false;
    let mut best_chars: Vec<char> = Vec::new();
    let mut i: usize = 0;
    while i < files.len()
        invariant
            names == file_names(files@),
            of@ == "-of-"@,
            i <= files.len(),
            match best {
                None => forall|k: int| 0 <= k < i ==> !#[trigger] quant_matches(names[k], needle@),
                Some(b) => {
                    &&& best_chars@ == names[b as int]
                    &&& best_sharded == contains(names[b as int], "-of-"@)
                    &&& is_pick_upto(names, needle@, b as int, i as int)
                },
            },
        decreases files.len() - i,
    {
        let name = chars_of(files[i].0.as_str());
        assert(name@ == names[i as int]);
        let up = ascii_uppercase(name.as_slice());
        if has_substring(up.as_slice(), needle) {
            let sharded = has_substring(name.as_slice(), of.as_slice());
            let better = match best {
                None => true,
                Some(_) => (!sharded && best_sharded) || (sharded == best_sharded && chars_less(
                    name.as_slice(),
                    best_chars.as_slice(),
                )),
            };
            proof {
                let n = names[i as int];
                assert(quant_matches(n, needle@));
                match best {
                    None => {
                        assert forall|k: int|
                            0 <= k < i + 1 && #[trigger] quant_matches(names[k], needle@) implies !shard_key_before(
                            names[k],
                            n,
                        ) by {
                            lemma_key_irreflexive(n);
                        }
                    },
                    Some(b) => {
                        let bn = names[b as int];
                        if better {
                            assert(shard_key_before(n, bn));
                            assert forall|k: int|
                                0 <= k < i + 1 && #[trigger] quant_matches(names[k], needle@) implies !shard_key_before(
                                names[k],
                                n,
                            ) by {
                                lemma_key_irreflexive(n);
                                if k < i && shard_key_before(names[k], n) {
                                    lemma_key_trans(names[k], n, bn);
                                }
                            }
                            assert forall|k: int|
                                0 <= k < i && #[trigger] quant_matches(names[k], needle@) implies shard_key_before(
                                n,
                                names[k],
                            ) by {
                                lemma_key_total(bn, names[k]);
                                if shard_key_before(bn, names[k]) {
                                    lemma_key_trans(n, bn, names[k]);
                                }
                            }
                        } else {
                            assert(!shard_key_before(n, bn));
                        }
                    },
                }
            }
            if better {
                best = Some(i);
                best_sharded = sharded;
                best_chars = name;
            }
        }
        i = i + 1;
    }
    proof {
        if best is None {
            assert forall|k: int| 0 <= k < names.len() implies !#[trigger] quant_matches(
                names[k],
                needle@,
            ) by {}
        }
    }
    best
}

fn joined_file_names(files: &Vec<(String, u64)>) -> (s: String)
    ensures
        s@ == join(file_names(files@), ", "@),
{
    let ghost names = file_names(files@);
    let mut s = String::new();
    let mut k: usize = 0;
    assert(join(names.take(0), ", "@) =~= Seq::<char>::empty());
    while k < files.len()
        invariant
            k <= files.len(),
            names == file_names(files@),
            s@ == join(names.take(k as int), ", "@),
        decreases files.len() - k,
    {
        if k > 0 {
            s.append(", ");
        }
        s.append(files[k].0.as_str());
        proof {
            assert(names.take(k + 1).drop_last() =~= names.take(k as int));
            assert(names.take(k + 1).last() == files@[k as int].0@);
        }
        k = k + 1;
        assert(s@ =~= join(names.take(k as int), ", "@));
    }
    assert(names.take(k as int) =~= names);
    s
}

/// The file, resolve URL and size that auditing `repo_id` inspects, given
/// the repository's GGUF listing and, for the case without a quant variant,
/// the listing's preferred file (`best`). With a variant, the first matching
/// file by (shard set, name) wins.
pub fn resolve_repo_gguf_url(
    repo_id: &str,
    quant_variant: Option<&str>,
    files: &Vec<(String, u64)>,
    best: Option<(String, u64)>,
) -> (r: Result<(String, String, u64), String>)
    ensures
        files@.len() == 0 ==> (r matches Err(m) && m@ == "no GGUF files found in repo '"@ + repo_id@
            + "'"@),
        files@.len() > 0 ==> match quant_variant {
            Some(v) => if any_quant_match(file_names(files@), ascii_upper(v@)) {
                r matches Ok(t) && exists|i: int|
                    is_pick(file_names(files@), ascii_upper(v@), i) && t.0@ == files@[i].0@
                        && t.1@ == resolve_url_of(repo_id@, files@[i].0@) && t.2 == files@[i].1
            } else {
                r matches Err(m) && m@ == "no GGUF file matching quant '"@ + v@ + "' in repo '"@
                    + repo_id@ + "' (files: "@ + join(file_names(files@), ", "@) + ")"@
            },
            None => match best {
                Some(b) => r matches Ok(t) && t.0@ == b.0@ && t.1@ == resolve_url_of(
                    repo_id@,
                    b.0@,
                ) && t.2 == b.1,
                None => r matches Err(m) && m@ == "no usable GGUF candidate in repo '"@ + repo_id@
                    + "'"@,
            },
        },
{
    if files.len() == 0 {
        let mut m = String::from_str("no GGUF files found in repo '");
        m.append(repo_id);
        m.append("'");
        return Err(m);
    }
    match quant_variant {
        Some(variant) => {
            let vc = chars_of(variant);
            let needle = ascii_uppercase(vc.as_slice());
            match pick_quant_file(files, needle.as_slice()) {
                Some(i) => {
                    let filename = files[i].0.clone();
                    let url = resolve_url(repo_id, files[i].0.as_str());
                    Ok((filename, url, files[i].1))
                },
                None => {
                    let mut m = String::from_str("no GGUF file matching quant '");
                    m.append(variant);
                    m.append("' in repo '");
                    m.append(repo_id);
                    m.append("' (files: ");
                    let names = joined_file_names(files);
                    m.append(names.as_str());
                    m.append(")");
                    Err(m)
                },
            }
        },
        None => match best {
            Some((filename, size)) => {
                let url = resolve_url(repo_id, filename.as_str());
                Ok((filename, url, size))
            },
            None => {
                let mut m = String::from_str("no usable GGUF candidate in repo '");
                m.append(repo_id);
                m.append("'");
                Err(m)
            },
        },
    }
}

/// The state of a [`RangeReader`].
pub struct ReaderView {
    pub url: Seq<char>,
    /// The URL a redirect chain led to, reused for later requests.
    pub resolved_url: Option<Seq<char>>,
    pub next_chunk: u64,
    pub transfer_cap: u64,
    pub buf: Seq<u8>,
    /// Absolute offset of `buf[0]`, once a window was fetched.
    pub buf_start: Option<u64>,
    pub pos: u64,
    pub transferred: u64,
    pub total_size: Option<u64>,
    pub last_fatal: Option<Seq<char>>,
}

/// A lazy, seekable view of a remote file served with byte-range support.
/// Seeks never fetch; a read outside the buffered window asks for exactly
/// one range request, for the chunk that starts at the read position.
pub struct RangeReader {
    url: String,
    resolved_url: Option<String>,
    next_chunk: u64,
    transfer_cap: u64,
    buf: Vec<u8>,
    buf_start: Option<u64>,
    pos: u64,
    transferred: u64,
    total_size: Option<u64>,
    last_fatal: Option<String>,
}

pub open spec fn opt_string_view(o: Option<String>) -> Option<Seq<char>> {
    match o {
        Some(s) => Some(s@),
        None => None,
    }
}

pub open spec fn opt_str_view(o: Option<&str>) -> Option<Seq<char>> {
    match o {
        Some(s) => Some(s@),
        None => None,
    }
}

impl View for RangeReader {
    type V = ReaderView;

    closed spec fn view(&self) -> ReaderView {
        ReaderView {
            url: self.url@,
            resolved_url: opt_string_view(self.resolved_url),
            next_chunk: self.next_chunk,
            transfer_cap: self.transfer_cap,
            buf: self.buf@,
            buf_start: self.buf_start,
            pos: self.pos,
            transferred: self.transferred,
            total_size: self.total_size,
            last_fatal: opt_string_view(self.last_fatal),
        }
    }
}

impl RangeReader {
    #[verifier::type_invariant]
    spec fn chunk_positive(self) -> bool {
        self.next_chunk >= 1
    }
}

/// One range request: where it goes and which bytes it asks for.
#[derive(Debug)]
pub struct RangeRequest {
    pub url: String,
    pub start: u64,
    pub end: u64,
    /// Redirects followed so far for this request.
    pub redirects: usize,
}

pub struct RequestView {
    pub url: Seq<char>,
    pub start: u64,
    pub end: u64,
    pub redirects: usize,
}

impl View for RangeRequest {
    type V = RequestView;

    open spec fn view(&self) -> RequestView {
        RequestView { url: self.url@, start: self.start, end: self.end, redirects: self.redirects }
    }
}

/// What to do after a response arrived.
#[derive(Debug)]
pub enum ResponseStep {
    /// The request was redirected: send it again to its new URL.
    Redirected,
    /// Read at most `want` bytes of the body, after printing `warning` if any.
    Body { want: u64, warning: Option<String> },
}

pub enum StepView {
    Redirected,
    Body { want: u64, warning: Option<Seq<char>> },
}

impl View for ResponseStep {
    type V = StepView;

    open spec fn view(&self) -> StepView {
        match self {
            ResponseStep::Redirected => StepView::Redirected,
            ResponseStep::Body { want, warning } => StepView::Body {
                want: *want,
                warning: opt_string_view(*warning),
            },
        }
    }
}

/// Where a seek goes.
#[derive(Debug, Clone, Copy, PartialEq, Eq, Structural)]
pub enum SeekTarget {
    Start(u64),
    Current(i64),
    End(i64),
}

/// Why a seek was refused.
#[derive(Debug, Clone, Copy, PartialEq, Eq, Structural)]
pub enum SeekError {
    /// The target lies before the start or past `u64::MAX`.
    OutOfBounds,
    /// Seeking from the end before the total size is known.
    NeedsTotalSize,
    /// Seeking from the end to before the start of the file.
    BeforeStart,
}

impl SeekError {
    pub fn message(&self) -> (s: String)
        ensures
            s@ == (match *self {
                SeekError::OutOfBounds => "seek out of bounds"@,
                SeekError::NeedsTotalSize => "SeekFrom::End needs a known total size (fetch first)"@,
                SeekError::BeforeStart => "seek before start of file"@,
            }),
    {
        match self {
            SeekError::OutOfBounds => String::from_str("seek out of bounds"),
            SeekError::NeedsTotalSize => String::from_str(
                "SeekFrom::End needs a known total size (fetch first)",
            ),
            SeekError::BeforeStart => String::from_str("seek before start of file"),
        }
    }
}

/// The transfer so far is within the budget: no more bytes have been
/// pulled over the network than the cap allows.
pub open spec fn within_budget(v: ReaderView) -> bool {
    v.transferred <= v.transfer_cap
}

/// The state a new reader starts in.
pub open spec fn fresh_reader(url: Seq<char>) -> ReaderView {
    ReaderView {
        url,
        resolved_url: None,
        next_chunk: INITIAL_CHUNK_BYTES,
        transfer_cap: DEFAULT_TRANSFER_CAP_BYTES,
        buf: Seq::empty(),
        buf_start: None,
        pos: 0,
        transferred: 0,
        total_size: None,
        last_fatal: None,
    }
}

/// `v` with a fatal transport message recorded.
pub open spec fn with_fatal(v: ReaderView, m: Seq<char>) -> ReaderView {
    ReaderView { last_fatal: Some(m), ..v }
}

/// The URL the next request goes to first.
pub open spec fn request_url_of(v: ReaderView) -> Seq<char> {
    match v.resolved_url {
        Some(u) => u,
        None => v.url,
    }
}

/// A fetch past the start that would take the transfer over its cap.
pub open spec fn over_budget(v: ReaderView) -> bool {
    v.pos > 0 && v.transferred + v.next_chunk > v.transfer_cap
}

pub open spec fn budget_message(cap: u64) -> Seq<char> {
    "remote header inspection exceeded its "@ + decimal((cap / 1048576u64) as nat)
        + " MiB transfer budget"@
}

/// Last byte of a range of `chunk` bytes at `start`, saturating at `u64::MAX`.
pub open spec fn range_end(start: u64, chunk: u64) -> u64 {
    if start + chunk - 1 > u64::MAX {
        u64::MAX
    } else {
        (start + chunk - 1) as u64
    }
}

/// Bytes the next body read may take: one chunk, but no more than what is
/// left of the transfer budget.
pub open spec fn want_of(v: ReaderView) -> u64 {
    let left: u64 = if v.transfer_cap >= v.transferred {
        (v.transfer_cap - v.transferred) as u64
    } else {
        0
    };
    if v.next_chunk <= left {
        v.next_chunk
    } else {
        left
    }
}

/// A 3xx status.
pub open spec fn is_redirect_status(status: u16) -> bool {
    300 <= status < 400
}

/// A status that answers a range request: 206, or a plain 200 for a range
/// that starts at byte 0 (the body is then read only up to the chunk).
pub open spec fn honors_range(status: u16, start: u64) -> bool {
    status == 206 || (status == 200 && start == 0)
}

pub open spec fn step_result_view(r: Result<ResponseStep, String>) -> Result<StepView, Seq<char>> {
    match r {
        Ok(s) => Ok(s@),
        Err(e) => Err(e@),
    }
}

/// The outcome of a response to request `q`: the step to take (or the
/// error), the reader's next state and the request's next state.
pub open spec fn respond(
    v: ReaderView,
    q: RequestView,
    status: u16,
    location: Option<Seq<char>>,
    content_range: Option<Seq<char>>,
) -> (Result<StepView, Seq<char>>, ReaderView, RequestView) {
    if is_redirect_status(status) {
        if q.redirects + 1 > MAX_REDIRECTS {
            let m = "too many redirects while resolving the file URL"@;
            (Err(m), with_fatal(v, m), q)
        } else {
            match location {
                None => {
                    let m = "redirect "@ + decimal(status as nat) + " without a Location header"@;
                    (Err(m), with_fatal(v, m), q)
                },
                Some(l) => match joined_redirect(q.url, l) {
                    Ok(u) => (
                        Ok(StepView::Redirected),
                        v,
                        RequestView { url: u, redirects: (q.redirects + 1) as usize, ..q },
                    ),
                    Err(e) => (Err(e), v, q),
                },
            }
        }
    } else {
        let v1 = if v.resolved_url is None && q.redirects > 0 {
            ReaderView { resolved_url: Some(q.url), ..v }
        } else {
            v
        };
        if !honors_range(status, q.start) {
            let m = "server did not honor byte ranges (status "@ + decimal(status as nat)
                + " for bytes="@ + decimal(q.start as nat) + "-"@ + decimal(q.end as nat) + ")"@;
            (Err(m), with_fatal(v1, m), q)
        } else {
            match content_range {
                None => (Ok(StepView::Body { want: want_of(v), warning: None }), v1, q),
                Some(cr) => match content_range_total(cr) {
                    Ok((first, total)) => if first != q.start {
                        let m = "server returned wrong range start ("@ + decimal(first as nat)
                            + ", asked "@ + decimal(q.start as nat) + ")"@;
                        (Err(m), with_fatal(v1, m), q)
                    } else {
                        (
                            Ok(StepView::Body { want: want_of(v), warning: None }),
                            ReaderView { total_size: Some(total), ..v1 },
                            q,
                        )
                    },
                    Err(e) => (
                        Ok(
                            StepView::Body {
                                want: want_of(v),
                                warning: Some(
                                    "warning: unparseable Content-Range '"@ + cr + "': "@ + e,
                                ),
                            },
                        ),
                        v1,
                        q,
                    ),
                },
            }
        }
    }
}

/// The state after a body of `body` bytes arrived for a request at `start`:
/// the bytes become the window, count toward the transfer, and a full chunk
/// doubles the next one (up to [`MAX_CHUNK_BYTES`]).
pub open spec fn finished(v: ReaderView, start: u64, body: Seq<u8>) -> ReaderView {
    ReaderView {
        transferred: (v.transferred + body.len()) as u64,
        buf: body,
        buf_start: Some(start),
        next_chunk: if body.len() == want_of(v) {
            if 2 * v.next_chunk <= MAX_CHUNK_BYTES {
                (2 * v.next_chunk) as u64
            } else {
                MAX_CHUNK_BYTES
            }
        } else {
            v.next_chunk
        },
        ..v
    }
}

/// The buffered window holds the byte at the read position.
pub open spec fn window_covers(v: ReaderView) -> bool {
    v.buf_start matches Some(s) && s <= v.pos && v.pos - s < v.buf.len()
}

/// The buffered window starts at or before the read position and reaches it,
/// and its end is addressable.
pub open spec fn window_ready(v: ReaderView) -> bool {
    v.buf_start matches Some(s) && s <= v.pos && v.pos - s <= v.buf.len() && s + v.buf.len()
        <= u64::MAX
}

/// A read of at most `max` bytes from the window at the read position: the
/// bytes it gives and the state after it. At the window's end it gives none.
pub open spec fn buffered_read(v: ReaderView, max: nat) -> (Seq<u8>, ReaderView) {
    let off = v.pos - v.buf_start->0;
    let avail = v.buf.len() - off;
    let n = if avail <= max {
        avail
    } else {
        max as int
    };
    (v.buf.subrange(off, off + n), ReaderView { pos: (v.pos + n) as u64, ..v })
}

/// Where a seek from state `v` lands.
pub open spec fn seek_target(v: ReaderView, t: SeekTarget) -> Result<u64, SeekError> {
    match t {
        SeekTarget::Start(o) => Ok(o),
        SeekTarget::Current(d) => {
            let x = v.pos + d;
            if 0 <= x <= u64::MAX {
                Ok(x as u64)
            } else {
                Err(SeekError::OutOfBounds)
            }
        },
        SeekTarget::End(d) => match v.total_size {
            None => Err(SeekError::NeedsTotalSize),
            Some(t) => {
                let x = t + d;
                if x < 0 {
                    Err(SeekError::BeforeStart)
                } else if x > u64::MAX {
                    Ok((x - 0x1_0000_0000_0000_0000) as u64)
                } else {
                    Ok(x as u64)
                }
            },
        },
    }
}

impl RangeReader {
    pub fn new(url: &str) -> (r: Self)
        ensures
            r@ == fresh_reader(url@),
            within_budget(r@),
    {
        RangeReader {
            url: String::from_str(url),
            resolved_url: None,
            next_chunk: INITIAL_CHUNK_BYTES,
            transfer_cap: DEFAULT_TRANSFER_CAP_BYTES,
            buf: Vec::new(),
            buf_start: None,
            pos: 0,
            transferred: 0,
            total_size: None,
            last_fatal: None,
        }
    }

    /// Sets the size of the next range request (at least one byte).
    pub fn chunk_bytes(self, chunk_bytes: u64) -> (r: Self)
        ensures
            r@ == (ReaderView {
                next_chunk: if chunk_bytes >= 1 {
                    chunk_bytes
                } else {
                    1
                },
                ..self@
            }),
            within_budget(self@) ==> within_budget(r@),
    {
        let mut r = self;
        r.next_chunk = if chunk_bytes >= 1 {
            chunk_bytes
        } else {
            1
        };
        r
    }

    /// Sets the transfer budget.
    pub fn transfer_cap(self, cap: u64) -> (r: Self)
        ensures
            r@ == (ReaderView { transfer_cap: cap, ..self@ }),
            within_budget(r@) <==> self@.transferred <= cap,
    {
        let mut r = self;
        proof {
            use_type_invariant(&r);
        }
        r.transfer_cap = cap;
        r
    }

    /// Total bytes pulled over the network so far.
    pub fn transferred(&self) -> (n: u64)
        ensures
            n == self@.transferred,
    {
        self.transferred
    }

    /// Full file size as advertised by `Content-Range`, once known.
    pub fn total_size(&self) -> (n: Option<u64>)
        ensures
            n == self@.total_size,
    {
        self.total_size
    }

    /// The last transport failure, taken out of the reader.
    pub fn take_last_fatal(&mut self) -> (m: Option<String>)
        ensures
            opt_string_view(m) == old(self)@.last_fatal,
            final(self)@ == (ReaderView { last_fatal: None, ..old(self)@ }),
            within_budget(old(self)@) ==> within_budget(final(self)@),
    {
        proof {
            use_type_invariant(&*self);
        }
        let m = match &self.last_fatal {
            Some(f) => Some(f.clone()),
            None => None,
        };
        self.last_fatal = None;
        m
    }

    /// Records a transport failure and hands its message back.
    pub fn record_fatal(&mut self, msg: String) -> (r: String)
        ensures
            r@ == msg@,
            final(self)@ == with_fatal(old(self)@, msg@),
            within_budget(old(self)@) ==> within_budget(final(self)@),
    {
        proof {
            use_type_invariant(&*self);
        }
        let r = msg.clone();
        self.last_fatal = Some(msg);
        r
    }

    fn fail(&mut self, msg: String) -> (r: Result<RangeRequest, String>)
        ensures
            r matches Err(e) && e@ == msg@,
            final(self)@ == with_fatal(old(self)@, msg@),
    {
        Err(self.record_fatal(msg))
    }

    /// Whether a read at the current position needs a range request first.
    pub fn needs_fetch(&self) -> (r: bool)
        ensures
            r == !window_covers(self@),
    {
        match self.buf_start {
            Some(start) => !(self.pos >= start && ((self.pos - start) as u128) < (
            self.buf.len() as u128)),
            None => true,
        }
    }

    /// Whether the buffered window can serve a read at the current position.
    pub fn window_ready(&self) -> (r: bool)
        ensures
            r == window_ready(self@),
    {
        match self.buf_start {
            Some(start) => self.pos >= start && ((self.pos - start) as u128) <= (
            self.buf.len() as u128) && (start as u128) + (self.buf.len() as u128) <= (
            u64::MAX as u128),
            None => false,
        }
    }

    /// The range request for the chunk at the read position, unless it would
    /// take the transfer past its budget (the first chunk always goes).
    pub fn begin_fetch(&mut self) -> (r: Result<RangeRequest, String>)
        ensures
            over_budget(old(self)@) ==> (r matches Err(m) && m@ == budget_message(
                old(self)@.transfer_cap,
            ) && final(self)@ == with_fatal(old(self)@, m@)),
            !over_budget(old(self)@) ==> (r matches Ok(q) && q@ == (RequestView {
                url: request_url_of(old(self)@),
                start: old(self)@.pos,
                end: range_end(old(self)@.pos, old(self)@.next_chunk),
                redirects: 0,
            }) && final(self)@ == old(self)@),
            within_budget(old(self)@) ==> within_budget(final(self)@),
    {
        proof {
            use_type_invariant(&*self);
        }
        let chunk = self.next_chunk;
        let start = self.pos;
        let over = match self.transferred.checked_add(chunk) {
            Some(t) => t > self.transfer_cap,
            None => true,
        };
        if start > 0 && over {
            let mut msg = String::from_str("remote header inspection exceeded its ");
            push_decimal(&mut msg, self.transfer_cap / (1024 * 1024));
            msg.append(" MiB transfer budget");
            return self.fail(msg);
        }
        let end = start.saturating_add(chunk - 1);
        let url = match &self.resolved_url {
            Some(u) => u.clone(),
            None => self.url.clone(),
        };
        Ok(RangeRequest { url, start, end, redirects: 0 })
    }

    /// Decides what a response to `req` means: a redirect to follow, a body
    /// to read (and how much of it), or a failure.
    pub fn on_response(
        &mut self,
        req: &mut RangeRequest,
        status: u16,
        location: Option<&str>,
        content_range: Option<&str>,
    ) -> (r: Result<ResponseStep, String>)
        ensures
            (step_result_view(r), final(self)@, final(req)@) == respond(
                old(self)@,
                old(req)@,
                status,
                opt_str_view(location),
                opt_str_view(content_range),
            ),
            within_budget(old(self)@) ==> within_budget(final(self)@),
    {
        proof {
            use_type_invariant(&*self);
        }
        if 300 <= status && status < 400 {
            if req.redirects >= MAX_REDIRECTS {
                return Err(
                    self.record_fatal(
                        String::from_str("too many redirects while resolving the file URL"),
                    ),
                );
            }
            let loc = match location {
                Some(l) => l,
                None => {
                    let mut msg = String::from_str("redirect ");
                    push_decimal(&mut msg, status as u64);
                    msg.append(" without a Location header");
                    return Err(self.record_fatal(msg));
                },
            };
            let next = join_redirect_url(req.url.as_str(), loc);
            match next {
                Ok(u) => {
                    req.url = u;
                    req.redirects = req.redirects + 1;
                    return Ok(ResponseStep::Redirected);
                },
                Err(e) => {
                    return Err(e);
                },
            }
        }
        if self.resolved_url.is_none() && req.redirects > 0 {
            self.resolved_url = Some(req.url.clone());
        }
        if status != 206 && !(status == 200 && req.start == 0) {
            let mut msg = String::from_str("server did not honor byte ranges (status ");
            push_decimal(&mut msg, status as u64);
            msg.append(" for bytes=");
            push_decimal(&mut msg, req.start);
            msg.append("-");
            push_decimal(&mut msg, req.end);
            msg.append(")");
            return Err(self.record_fatal(msg));
        }
        let want = self.want();
        match content_range {
            None => Ok(ResponseStep::Body { want, warning: None }),
            Some(range) => match parse_content_range_total(range) {
                Ok((first, total)) => {
                    if first != req.start {
                        let mut msg = String::from_str("server returned wrong range start (");
                        push_decimal(&mut msg, first);
                        msg.append(", asked ");
                        push_decimal(&mut msg, req.start);
                        msg.append(")");
                        return Err(self.record_fatal(msg));
                    }
                    self.total_size = Some(total);
                    Ok(ResponseStep::Body { want, warning: None })
                },
                Err(e) => {
                    let mut w = String::from_str("warning: unparseable Content-Range '");
                    w.append(range);
                    w.append("': ");
                    w.append(e.as_str());
                    Ok(ResponseStep::Body { want, warning: Some(w) })
                },
            },
        }
    }

    /// Bytes the next body read may take.
    pub fn want(&self) -> (n: u64)
        ensures
            n == want_of(self@),
    {
        let left = self.transfer_cap.saturating_sub(self.transferred);
        if self.next_chunk <= left {
            self.next_chunk
        } else {
            left
        }
    }

    /// Installs the body of a range request at `start` as the new window.
    pub fn finish_fetch(&mut self, start: u64, body: Vec<u8>)
        requires
            body@.len() <= want_of(old(self)@),
        ensures
            final(self)@ == finished(old(self)@, start, body@),
            final(self)@.transferred <= old(self)@.transferred || final(self)@.transferred
                <= old(self)@.transfer_cap,
            final(self)@.next_chunk >= 1,
            within_budget(old(self)@) ==> within_budget(final(self)@),
    {
        proof {
            use_type_invariant(&*self);
        }
        let want = self.want();
        let filled = body.len() as u64;
        self.transferred = self.transferred + filled;
        self.buf = body;
        self.buf_start = Some(start);
        if filled == want {
            self.next_chunk = if self.next_chunk <= MAX_CHUNK_BYTES / 2 {
                2 * self.next_chunk
            } else {
                MAX_CHUNK_BYTES
            };
        }
        proof {
            use_type_invariant(&*self);
        }
    }

    /// Takes up to `max` bytes from the window at the read position and
    /// advances past them; none at the window's end (the server sent no
    /// more: end of file).
    pub fn read_buffered(&mut self, max: usize) -> (out: Vec<u8>)
        requires
            window_ready(old(self)@),
        ensures
            (out@, final(self)@) == buffered_read(old(self)@, max as nat),
            within_budget(old(self)@) ==> within_budget(final(self)@),
    {
        proof {
            use_type_invariant(&*self);
        }
        let start = match self.buf_start {
            Some(s) => s,
            None => 0,
        };
        let offset = (self.pos - start) as usize;
        let available = self.buf.len() - offset;
        let n = if available <= max {
            available
        } else {
            max
        };
        let out = slice_bytes(&self.buf, offset, offset + n);
        self.pos = self.pos + n as u64;
        out
    }

    /// Moves the read position; the buffered window stays as it is.
    pub fn seek(&mut self, target: SeekTarget) -> (r: Result<u64, SeekError>)
        ensures
            r == seek_target(old(self)@, target),
            r matches Ok(p) ==> final(self)@ == (ReaderView { pos: p, ..old(self)@ }),
            r is Err ==> final(self)@ == old(self)@,
            within_budget(old(self)@) ==> within_budget(final(self)@),
    {
        proof {
            use_type_invariant(&*self);
        }
        let dest = match target {
            SeekTarget::Start(offset) => offset,
            SeekTarget::Current(delta) => {
                let x: i128 = self.pos as i128 + delta as i128;
                if x < 0 || x > u64::MAX as i128 {
                    return Err(SeekError::OutOfBounds);
                }
                x as u64
            },
            SeekTarget::End(delta) => {
                let total = match self.total_size {
                    Some(t) => t,
                    None => {
                        return Err(SeekError::NeedsTotalSize);
                    },
                };
                let x: i128 = total as i128 + delta as i128;
                if x < 0 {
                    return Err(SeekError::BeforeStart);
                }
                if x > u64::MAX as i128 {
                    (x - 0x1_0000_0000_0000_0000i128) as u64
                } else {
                    x as u64
                }
            },
        };
        self.pos = dest;
        Ok(dest)
    }
}

fn slice_bytes(v: &Vec<u8>, from: usize, to: usize) -> (out: Vec<u8>)
    requires
        from <= to <= v@.len(),
    ensures
        out@ == v@.subrange(from as int, to as int),
{
    let mut out: Vec<u8> = Vec::new();
    let mut i: usize = from;
    while i < to
        invariant
            from <= i <= to <= v@.len(),
            out@ == v@.subrange(from as int, i as int),
        decreases to - i,
    {
        out.push(v[i]);
        i = i + 1;
        assert(out@ =~= v@.subrange(from as int, i as int));
    }
    out
}

/// A GGUF header read from a remote file, with transfer accounting.
pub struct RemoteGguf {
    pub header: GgufHeader,
    /// Advertised full size of the remote file (from `Content-Range`).
    pub file_size_bytes: Option<u64>,
    /// Bytes actually pulled over the network to read the header.
    pub transferred_bytes: u64,
}

impl RemoteGguf {
    /// The summary of the header, as for a local file.
    pub fn summarize(&self) -> (s: GgufModelSummary)
        requires
            weights_total(tensor_seq(self.header.tensors@)) <= u64::MAX,
        ensures
            summarizes(s, self.header),
    {
        GgufModelSummary::from_header(&self.header)
    }
}

/// A reader whose transfer is within its budget stays within it after a
/// body arrives, and its next chunk stays positive and never grows past the
/// larger of its old size and [`MAX_CHUNK_BYTES`].
pub proof fn lemma_fetch_stays_within_budget(v: ReaderView, start: u64, body: Seq<u8>)
    requires
        v.transferred <= v.transfer_cap,
        v.next_chunk >= 1,
        body.len() <= want_of(v),
    ensures
        finished(v, start, body).transferred <= v.transfer_cap,
        finished(v, start, body).next_chunk >= 1,
        finished(v, start, body).next_chunk <= v.next_chunk || finished(v, start, body).next_chunk
            <= MAX_CHUNK_BYTES,
{
}

/// Once a redirect chain has been resolved, no response changes the URL
/// later requests go to.
pub proof fn lemma_resolved_url_is_kept(
    v: ReaderView,
    q: RequestView,
    status: u16,
    location: Option<Seq<char>>,
    content_range: Option<Seq<char>>,
)
    requires
        v.resolved_url is Some,
    ensures
        respond(v, q, status, location, content_range).1.resolved_url == v.resolved_url,
        request_url_of(respond(v, q, status, location, content_range).1) == request_url_of(v),
{
}

/// The first response that completes a redirected request records where the
/// redirects led, so every later request goes there directly.
pub proof fn lemma_redirect_target_is_reused(
    v: ReaderView,
    q: RequestView,
    status: u16,
    content_range: Option<Seq<char>>,
)
    requires
        v.resolved_url is None,
        q.redirects > 0,
        !is_redirect_status(status),
    ensures
        request_url_of(respond(v, q, status, None, content_range).1) == q.url,
{
}

/// The `Content-Range` value a server sends for bytes `first..=last` of a
/// file of `total` bytes.
pub open spec fn content_range_value(first: u64, last: u64, total: u64) -> Seq<char> {
    "bytes "@ + decimal(first as nat) + "-"@ + decimal(last as nat) + "/"@ + decimal(total as nat)
}

/// Reading a `Content-Range` value back gives the first byte and the total
/// size it was written with.
pub proof fn lemma_content_range_round_trip(first: u64, last: u64, total: u64)
    ensures
        content_range_total(content_range_value(first, last, total)) == Ok::<(u64, u64), Seq<char>>(
            (first, total),
        ),
{
    reveal_strlit("bytes ");
    reveal_strlit("-");
    reveal_strlit("/");
    reveal_strlit("*");
    let a = decimal(first as nat);
    let m = decimal(last as nat);
    let t = decimal(total as nat);
    lemma_decimal_digits(first as nat);
    lemma_decimal_digits(last as nat);
    lemma_decimal_digits(total as nat);
    let v = content_range_value(first, last, total);
    assert(v[0] == 'b');
    assert(v.last() == t[t.len() - 1]);
    assert(is_digit(t[t.len() - 1]));
    assert(is_digit(t[0]));
    assert(is_digit(a[0]));
    assert(is_digit(a[a.len() - 1]));
    lemma_trim_untouched(v);
    lemma_trim_untouched(a);
    lemma_trim_untouched(t);
    assert(v.subrange(0, 6) =~= "bytes "@);
    let rest = v.subrange(6, v.len() as int);
    let left = a + seq!['-'] + m;
    assert(rest =~= left + seq!['/'] + t);
    assert forall|i: int| 0 <= i < left.len() implies left[i] != '/' by {
        if i < a.len() {
            assert(is_digit(a[i]));
        } else if i > a.len() {
            assert(left[i] == m[i - a.len() - 1]);
            assert(is_digit(m[i - a.len() - 1]));
        }
    }
    lemma_first_index_after(left, '/', t);
    let i = left.len() as int;
    assert(rest.take(i) =~= left);
    assert(rest.subrange(i + 1, rest.len() as int) =~= t);
    assert forall|j: int| 0 <= j < a.len() implies a[j] != '-' by {
        assert(is_digit(a[j]));
    }
    lemma_first_index_after(a, '-', m);
    assert(left.take(a.len() as int) =~= a);
    lemma_parse_decimal(first);
    lemma_parse_decimal(total);
    assert(t != "*"@) by {
        assert(t[0] != "*"@[0]);
    }
}

/// The buffered window holds the file's bytes at its offset.
pub open spec fn window_holds(v: ReaderView, file: Seq<u8>) -> bool {
    v.buf_start matches Some(s) && s + v.buf.len() <= file.len() && v.buf == file.subrange(
        s as int,
        s + v.buf.len(),
    )
}

/// A fetch whose body is the file's bytes from the requested offset leaves
/// a window that holds the file's bytes.
pub proof fn lemma_fetch_holds_file_bytes(v: ReaderView, file: Seq<u8>, start: u64, body: Seq<u8>)
    requires
        start + body.len() <= file.len(),
        body == file.subrange(start as int, start + body.len()),
    ensures
        window_holds(finished(v, start, body), file),
{
}

/// A read gives the file's bytes: from a window that holds them, a read of
/// at most `max` bytes gives the file's bytes at the read position, moves
/// the position past them and leaves the window holding the file's bytes.
pub proof fn lemma_read_gives_file_bytes(v: ReaderView, file: Seq<u8>, max: nat)
    requires
        window_holds(v, file),
        window_ready(v),
    ensures
        ({
            let (out, w) = buffered_read(v, max);
            &&& out == file.subrange(v.pos as int, v.pos + out.len())
            &&& w.pos == v.pos + out.len()
            &&& window_holds(w, file)
        }),
{
    let s = v.buf_start->0;
    let off = v.pos - s;
    let (out, w) = buffered_read(v, max);
    assert(out =~= file.subrange(v.pos as int, v.pos + out.len()));
}

/// The transfer cap is a hard ceiling over a reader's life: a reader that
/// starts within its budget stays within it through every step its
/// operations take (a request, a response, a body, a read, a seek or the
/// recording of a failure), so `transferred` never exceeds the cap after
/// any call. Only lowering the cap below what was already transferred (by
/// `transfer_cap`) leaves the budget, and then no body is taken at all.
pub proof fn lemma_budget_holds_over_every_step(
    v: ReaderView,
    q: RequestView,
    status: u16,
    location: Option<Seq<char>>,
    content_range: Option<Seq<char>>,
    start: u64,
    body: Seq<u8>,
    max: nat,
    t: SeekTarget,
    m: Seq<char>,
)
    requires
        within_budget(v),
    ensures
        within_budget(respond(v, q, status, location, content_range).1),
        body.len() <= want_of(v) ==> within_budget(finished(v, start, body)),
        window_ready(v) ==> within_budget(buffered_read(v, max).1),
        seek_target(v, t) matches Ok(p) ==> within_budget(ReaderView { pos: p, ..v }),
        within_budget(with_fatal(v, m)),
        within_budget(ReaderView { last_fatal: None, ..v }),
        within_budget(fresh_reader(m)),
        want_of(v) <= v.transfer_cap - v.transferred,
{
}

/// Once the budget is exceeded (the cap lowered below the bytes already
/// transferred), the next body may take nothing, so the transfer does not grow.
pub proof fn lemma_no_transfer_past_the_budget(v: ReaderView, start: u64, body: Seq<u8>)
    requires
        !within_budget(v),
        body.len() <= want_of(v),
    ensures
        finished(v, start, body).transferred == v.transferred,
{
}

} // verus!
