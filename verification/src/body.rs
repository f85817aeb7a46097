//! Body extraction pipeline: from a decoded MIME part tree to displayable
//! HTML with inline images resolved to local asset files.
//!
//! The surrounding application parses a raw message into a [`MimePart`]
//! tree of plain values (decoded text, raw bytes, declared media type and
//! the two headers the pipeline reads) and performs the actual file
//! writes; everything between — classification, selection of the best
//! displayable part, HTML escaping, `cid:` reference scanning and
//! rewriting, and file-name construction — is verified here.

use vstd::prelude::*;
use vstd::string::StrSliceExecFns;
use vstd::string::StringExecFns;

use crate::text::ci_contains;
use crate::text::lower_char;
use crate::text::spec_lower_char;
use crate::text::ci_contains_exec;
use crate::text::escape_html;
use crate::text::escape_html_exec;
use crate::text::sanitize;
use crate::text::sanitize_exec;
use crate::text::spec_trimmed_len;
use crate::text::starts_with;
use crate::text::starts_with_exec;
use crate::text::str_eq;
use crate::text::trimmed_len_exec;

verus! {

/// One node of a decoded MIME message: declared media type (lower case),
/// the content-disposition and content-id header values if present, the
/// decoded text of the part, its decoded raw bytes, and its children.
/// For the root part, `text` holds the whole-message best-effort body
/// (or the permissively decoded raw bytes when none can be extracted).
pub struct MimePart {
    pub mimetype: String,
    pub disposition: Option<String>,
    pub content_id: Option<String>,
    pub text: String,
    pub raw: Vec<u8>,
    pub subparts: Vec<MimePart>,
}

/// An inline-image candidate found during traversal: normalized
/// content-id, file extension for its media type, and its raw bytes.
pub struct CidCandidate {
    pub cid: String,
    pub ext: String,
    pub raw: Vec<u8>,
}

/// Mathematical view of a [`CidCandidate`].
pub ghost struct CidCandView {
    pub cid: Seq<char>,
    pub ext: Seq<char>,
    pub raw: Seq<u8>,
}

pub open spec fn cand_view(c: CidCandidate) -> CidCandView {
    CidCandView { cid: c.cid@, ext: c.ext@, raw: c.raw@ }
}

pub open spec fn cands_view(s: Seq<CidCandidate>) -> Seq<CidCandView> {
    s.map_values(|c: CidCandidate| cand_view(c))
}

/// A part carries the attachment disposition marker.
pub open spec fn spec_is_attachment(p: MimePart) -> bool {
    match p.disposition {
        Some(d) => ci_contains(d@, "attachment"@),
        None => false,
    }
}

pub open spec fn spec_is_leaf(p: MimePart) -> bool {
    p.subparts@.len() == 0
}

/// A leaf `text/html` part with enough trimmed content to display.
pub open spec fn spec_html_candidate(p: MimePart) -> bool {
    spec_is_leaf(p) && p.mimetype@ == "text/html"@ && spec_trimmed_len(p.text@) >= 20
}

/// A leaf `text/plain` part with non-empty trimmed content.
pub open spec fn spec_text_candidate(p: MimePart) -> bool {
    spec_is_leaf(p) && p.mimetype@ == "text/plain"@ && spec_trimmed_len(p.text@) > 0
}

/// A non-attachment image part with a content-id header.
pub open spec fn spec_cid_candidate(p: MimePart) -> bool {
    !spec_is_attachment(p) && starts_with(p.mimetype@, "image/"@) && p.content_id is Some
}

/// Content-id normalization: surrounding angle brackets are stripped.
pub open spec fn spec_norm_cid(s: Seq<char>) -> Seq<char> {
    if s.len() >= 2 && s[0] == '<' && s.last() == '>' {
        s.subrange(1, s.len() - 1)
    } else {
        s
    }
}

/// File extension for a declared image media type; unknown types fall
/// back to a generic binary extension.
pub open spec fn spec_ext_from_mime(m: Seq<char>) -> Seq<char> {
    if m == "image/png"@ {
        "png"@
    } else if m == "image/jpeg"@ || m == "image/jpg"@ {
        "jpg"@
    } else if m == "image/gif"@ {
        "gif"@
    } else if m == "image/webp"@ {
        "webp"@
    } else if m == "image/svg+xml"@ {
        "svg"@
    } else if m == "image/bmp"@ {
        "bmp"@
    } else {
        "bin"@
    }
}

/// File extension (without the dot) for a declared image media type.
pub fn ext_from_mime(mime: &str) -> (r: &'static str)
    ensures
        r@ == spec_ext_from_mime(mime@),
{
    if str_eq(mime, "image/png") {
        "png"
    } else if str_eq(mime, "image/jpeg") || str_eq(mime, "image/jpg") {
        "jpg"
    } else if str_eq(mime, "image/gif") {
        "gif"
    } else if str_eq(mime, "image/webp") {
        "webp"
    } else if str_eq(mime, "image/svg+xml") {
        "svg"
    } else if str_eq(mime, "image/bmp") {
        "bmp"
    } else {
        "bin"
    }
}

fn norm_cid_exec(s: &str) -> (r: String)
    ensures
        r@ == spec_norm_cid(s@),
{
    let len = s.unicode_len();
    if len >= 2 && s.get_char(0) == '<' && s.get_char(len - 1) == '>' {
        let inner = s.substring_char(1, len - 1);
        String::from_str(inner)
    } else {
        String::from_str(s)
    }
}

pub open spec fn view_opt(o: Option<String>) -> Option<Seq<char>> {
    match o {
        Some(s) => Some(s@),
        None => None,
    }
}

/// Later candidates override earlier ones: the newer result wins when
/// it exists.
pub open spec fn merge_opt(newer: Option<Seq<char>>, older: Option<Seq<char>>) -> Option<
    Seq<char>,
> {
    if newer is Some {
        newer
    } else {
        older
    }
}

/// The winning `text/html` body under `p`, last candidate in traversal
/// order taking precedence.
pub open spec fn best_html(p: MimePart) -> Option<Seq<char>>
    decreases p,
{
    if p.subparts@.len() == 0 {
        if spec_html_candidate(p) {
            Some(p.text@)
        } else {
            None
        }
    } else {
        best_html_seq(p.subparts@)
    }
}

pub open spec fn best_html_seq(s: Seq<MimePart>) -> Option<Seq<char>>
    decreases s,
{
    if s.len() == 0 {
        None
    } else {
        merge_opt(best_html(s.last()), best_html_seq(s.drop_last()))
    }
}

/// The winning `text/plain` body under `p`, under the same override
/// rule as [`best_html`].
pub open spec fn best_text(p: MimePart) -> Option<Seq<char>>
    decreases p,
{
    if p.subparts@.len() == 0 {
        if spec_text_candidate(p) {
            Some(p.text@)
        } else {
            None
        }
    } else {
        best_text_seq(p.subparts@)
    }
}

pub open spec fn best_text_seq(s: Seq<MimePart>) -> Option<Seq<char>>
    decreases s,
{
    if s.len() == 0 {
        None
    } else {
        merge_opt(best_text(s.last()), best_text_seq(s.drop_last()))
    }
}

pub open spec fn cid_view_of(p: MimePart) -> CidCandView {
    CidCandView {
        cid: spec_norm_cid(p.content_id->Some_0@),
        ext: spec_ext_from_mime(p.mimetype@),
        raw: p.raw@,
    }
}

/// All inline-image candidates under `p`, in depth-first traversal
/// order; a part is examined before its children.
pub open spec fn cid_cands(p: MimePart) -> Seq<CidCandView>
    decreases p,
{
    (if spec_cid_candidate(p) {
        seq![cid_view_of(p)]
    } else {
        Seq::empty()
    }) + cid_cands_seq(p.subparts@)
}

pub open spec fn cid_cands_seq(s: Seq<MimePart>) -> Seq<CidCandView>
    decreases s,
{
    if s.len() == 0 {
        Seq::empty()
    } else {
        cid_cands_seq(s.drop_last()) + cid_cands(s.last())
    }
}

/// Depth-first traversal of the part tree, recording the winning HTML
/// and plain-text candidates (later wins) and every inline-image
/// candidate in order.
pub fn collect_candidates(
    p: &MimePart,
    html_acc: &mut Option<String>,
    text_acc: &mut Option<String>,
    cids: &mut Vec<CidCandidate>,
)
    ensures
        view_opt(*final(html_acc)) == merge_opt(best_html(*p), view_opt(*old(html_acc))),
        view_opt(*final(text_acc)) == merge_opt(best_text(*p), view_opt(*old(text_acc))),
        cands_view(final(cids)@) == cands_view(old(cids)@) + cid_cands(*p),
    decreases *p,
{
    let is_att = match &p.disposition {
        Some(d) => ci_contains_exec(d.as_str(), "attachment"),
        None => false,
    };
    if !is_att && starts_with_exec(p.mimetype.as_str(), "image/") {
        if let Some(cid_raw) = &p.content_id {
            let norm = norm_cid_exec(cid_raw.as_str());
            let ext_lit = ext_from_mime(p.mimetype.as_str());
            let raw_copy = p.raw.clone();
            proof {
                assert(raw_copy@ =~= p.raw@);
            }
            let cand = CidCandidate { cid: norm, ext: String::from_str(ext_lit), raw: raw_copy };
            proof {
                assert(cand_view(cand) == cid_view_of(*p));
            }
            cids.push(cand);
            proof {
                assert(cands_view(cids@) =~= cands_view(old(cids)@) + seq![cid_view_of(*p)]);
            }
        }
    }
    proof {
        if !spec_cid_candidate(*p) {
            assert(cands_view(cids@) =~= cands_view(old(cids)@) + Seq::<CidCandView>::empty());
        }
    }
    let n = p.subparts.len();
    if n == 0 {
        proof {
            reveal_strlit("text/html");
            reveal_strlit("text/plain");
            assert("text/html"@.len() != "text/plain"@.len());
        }
        if str_eq(p.mimetype.as_str(), "text/html") {
            if trimmed_len_exec(p.text.as_str()) >= 20 {
                *html_acc = Some(p.text.clone());
            }
        } else if str_eq(p.mimetype.as_str(), "text/plain") {
            if trimmed_len_exec(p.text.as_str()) > 0 {
                *text_acc = Some(p.text.clone());
            }
        }
    } else {
        let ghost html0 = view_opt(*html_acc);
        let ghost text0 = view_opt(*text_acc);
        let ghost cids0 = cands_view(cids@);
        let mut k: usize = 0;
        while k < n
            invariant
                n == p.subparts@.len(),
                0 <= k <= n,
                view_opt(*html_acc) == merge_opt(best_html_seq(p.subparts@.take(k as int)), html0),
                view_opt(*text_acc) == merge_opt(best_text_seq(p.subparts@.take(k as int)), text0),
                cands_view(cids@) == cids0 + cid_cands_seq(p.subparts@.take(k as int)),
            decreases n - k,
        {
            proof {
                assert(decreases_to!(*p => p.subparts@[k as int]));
            }
            collect_candidates(&p.subparts[k], html_acc, text_acc, cids);
            proof {
                let s = p.subparts@;
                assert(s.take(k + 1).drop_last() =~= s.take(k as int));
                assert(s.take(k + 1).last() == s[k as int]);
            }
            k += 1;
        }
        proof {
            assert(p.subparts@.take(n as int) =~= p.subparts@);
        }
    }
    proof {
        if p.subparts@.len() == 0 {
            assert(cid_cands_seq(p.subparts@) =~= Seq::<CidCandView>::empty());
            assert(cands_view(cids@) =~= cands_view(old(cids)@) + cid_cands(*p));
        } else {
            assert(cands_view(cids@) =~= cands_view(old(cids)@) + cid_cands(*p));
        }
    }
}

/// Quote characters recognised around a `cid:` reference.
pub open spec fn is_quote(c: char) -> bool {
    c == '"' || c == '\''
}

/// A character that ends a `cid:` token inside HTML.
pub open spec fn is_cid_delim(c: char) -> bool {
    is_quote(c) || crate::text::is_space(c) || c == '>'
}

/// A content-id that could appear as a `cid:` token: non-empty and free
/// of quote, whitespace and `>` characters.
pub open spec fn cid_token_ok(cid: Seq<char>) -> bool {
    cid.len() > 0 && forall|i: int| 0 <= i < cid.len() ==> !is_cid_delim(cid[i])
}

/// Index of the first non-whitespace character at or after `i`.
pub open spec fn skip_spaces(h: Seq<char>, i: int) -> int
    decreases h.len() - i,
{
    if 0 <= i < h.len() && crate::text::is_space(h[i]) {
        skip_spaces(h, i + 1)
    } else {
        i
    }
}

fn skip_spaces_exec(h: &str, len: usize, i: usize) -> (r: usize)
    requires
        len == h@.len(),
        i <= len,
    ensures
        r as int == skip_spaces(h@, i as int),
        i <= r <= len,
    decreases len - i,
{
    if i < len && crate::text::is_space_exec(h.get_char(i)) {
        skip_spaces_exec(h, len, i + 1)
    } else {
        i
    }
}

/// An inline-image reference `src = "cid:TOKEN"` starting at position
/// `i` of `h`, matched case-insensitively, with optional whitespace and
/// an optional quote, whose token is exactly `cid`.
pub open spec fn cid_ref_at(h: Seq<char>, i: int, cid: Seq<char>) -> bool {
    &&& 0 <= i
    &&& i + 3 <= h.len()
    &&& spec_lower_char(h[i]) == 's'
    &&& spec_lower_char(h[i + 1]) == 'r'
    &&& spec_lower_char(h[i + 2]) == 'c'
    &&& {
        let e = skip_spaces(h, i + 3);
        &&& e < h.len()
        &&& h[e] == '='
        &&& {
            let q0 = skip_spaces(h, e + 1);
            let q = if q0 < h.len() && is_quote(h[q0]) {
                q0 + 1
            } else {
                q0
            };
            let c = skip_spaces(h, q);
            &&& c + 4 + cid.len() <= h.len()
            &&& spec_lower_char(h[c]) == 'c'
            &&& spec_lower_char(h[c + 1]) == 'i'
            &&& spec_lower_char(h[c + 2]) == 'd'
            &&& h[c + 3] == ':'
            &&& h.subrange(c + 4, c + 4 + cid.len()) == cid
            &&& (c + 4 + cid.len() == h.len() || is_cid_delim(h[c + 4 + cid.len()]))
        }
    }
}

/// The HTML references inline image `cid` somewhere.
pub open spec fn cid_referenced(h: Seq<char>, cid: Seq<char>) -> bool {
    cid_token_ok(cid) && exists|i: int| #[trigger] cid_ref_at(h, i, cid)
}

fn is_cid_delim_exec(c: char) -> (r: bool)
    ensures
        r == is_cid_delim(c),
{
    c == '"' || c == '\'' || crate::text::is_space_exec(c) || c == '>'
}

fn cid_ref_at_exec(h: &str, len: usize, i: usize, cid: &str, cid_len: usize) -> (r: bool)
    requires
        len == h@.len(),
        cid_len == cid@.len(),
        i <= len,
    ensures
        r == cid_ref_at(h@, i as int, cid@),
{
    if len - i < 3 {
        return false;
    }
    if !(lower_char(h.get_char(i)) == 's' && lower_char(h.get_char(i + 1)) == 'r'
        && lower_char(h.get_char(i + 2)) == 'c') {
        return false;
    }
    let e = skip_spaces_exec(h, len, i + 3);
    if e >= len {
        return false;
    }
    if h.get_char(e) != '=' {
        return false;
    }
    let q0 = skip_spaces_exec(h, len, e + 1);
    let q = if q0 < len {
        let qc = h.get_char(q0);
        if qc == '"' || qc == '\'' {
            q0 + 1
        } else {
            q0
        }
    } else {
        q0
    };
    let c0 = skip_spaces_exec(h, len, q);
    if len - c0 < 4 {
        return false;
    }
    if !(lower_char(h.get_char(c0)) == 'c' && lower_char(h.get_char(c0 + 1)) == 'i'
        && lower_char(h.get_char(c0 + 2)) == 'd' && h.get_char(c0 + 3) == ':') {
        return false;
    }
    if cid_len > len - (c0 + 4) {
        return false;
    }
    let piece = h.substring_char(c0 + 4, c0 + 4 + cid_len);
    if !str_eq(piece, cid) {
        return false;
    }
    let end = c0 + 4 + cid_len;
    if end == len {
        true
    } else {
        is_cid_delim_exec(h.get_char(end))
    }
}

fn cid_token_ok_exec(cid: &str, cid_len: usize) -> (r: bool)
    requires
        cid_len == cid@.len(),
    ensures
        r == cid_token_ok(cid@),
{
    if cid_len == 0 {
        return false;
    }
    let mut j: usize = 0;
    while j < cid_len
        invariant
            cid_len == cid@.len(),
            0 <= j <= cid_len,
            forall|k: int| 0 <= k < j ==> !is_cid_delim(cid@[k]),
        decreases cid_len - j,
    {
        if is_cid_delim_exec(cid.get_char(j)) {
            return false;
        }
        j += 1;
    }
    true
}

/// Whether the HTML holds a `src=...cid:` reference to this content-id.
pub fn cid_referenced_exec(h: &str, cid: &str) -> (r: bool)
    ensures
        r == cid_referenced(h@, cid@),
{
    let len = h.unicode_len();
    let cid_len = cid.unicode_len();
    if !cid_token_ok_exec(cid, cid_len) {
        return false;
    }
    let mut i: usize = 0;
    while i < len
        invariant
            len == h@.len(),
            cid_len == cid@.len(),
            cid_token_ok(cid@),
            0 <= i <= len,
            forall|k: int| 0 <= k < i ==> !(#[trigger] cid_ref_at(h@, k, cid@)),
        decreases len - i,
    {
        if cid_ref_at_exec(h, len, i, cid, cid_len) {
            return true;
        }
        i += 1;
    }
    assert(forall|k: int| !(#[trigger] cid_ref_at(h@, k, cid@))) by {
        assert(i == len);
    }
    false
}

/// Opening tag of the preformatted wrapper used for plain-text bodies.
pub open spec fn pre_open() -> Seq<char> {
    "<pre style=\"white-space:pre-wrap;font-family:system-ui\">"@
}

pub open spec fn pre_close() -> Seq<char> {
    "</pre>"@
}

/// Arbitrary text embedded in HTML: escaped and wrapped in a
/// preformatted block.
pub open spec fn wrap_pre(s: Seq<char>) -> Seq<char> {
    pre_open() + escape_html(s) + pre_close()
}

/// Escapes `text` and wraps it in the preformatted block used whenever
/// a message has no displayable HTML part.
pub fn wrap_pre_exec(text: &str) -> (r: String)
    ensures
        r@ == wrap_pre(text@),
{
    let mut out = String::from_str("<pre style=\"white-space:pre-wrap;font-family:system-ui\">");
    let escaped = escape_html_exec(text);
    out.append(escaped.as_str());
    out.append("</pre>");
    out
}

/// The displayable body of the message before inline-image rewriting:
/// the winning HTML part; else the winning text part, escaped and
/// wrapped; else the whole-message best-effort text, escaped and
/// wrapped.
pub open spec fn spec_base_html(root: MimePart) -> Seq<char> {
    if best_html(root) is Some {
        best_html(root)->Some_0
    } else if best_text(root) is Some {
        wrap_pre(best_text(root)->Some_0)
    } else {
        wrap_pre(root.text@)
    }
}

/// Upper bound on the size of an inline asset that is materialized.
pub const MAX_INLINE_ASSET_BYTES: usize = 5 * 1024 * 1024;

/// A file the caller must materialize in the inline-asset cache
/// directory (unless it already exists there).
pub struct AssetPlan {
    pub file_name: String,
    pub bytes: Vec<u8>,
}

/// Mathematical view of an [`AssetPlan`].
pub ghost struct AssetPlanView {
    pub file_name: Seq<char>,
    pub bytes: Seq<u8>,
}

pub open spec fn plan_view(p: AssetPlan) -> AssetPlanView {
    AssetPlanView { file_name: p.file_name@, bytes: p.bytes@ }
}

pub open spec fn plans_view(s: Seq<AssetPlan>) -> Seq<AssetPlanView> {
    s.map_values(|p: AssetPlan| plan_view(p))
}

/// Deterministic cache file name for an inline asset of message `uid`.
pub open spec fn spec_file_name(uid: int, c: CidCandView) -> Seq<char> {
    "uid_"@ + crate::text::dec_str(uid) + "_cid_"@ + sanitize(c.cid) + "."@ + c.ext
}

fn file_name_exec(uid: u32, c: &CidCandidate) -> (r: String)
    ensures
        r@ == spec_file_name(uid as int, cand_view(*c)),
{
    let mut out = String::from_str("uid_");
    crate::text::push_dec(&mut out, uid);
    out.append("_cid_");
    let safe = sanitize_exec(c.cid.as_str());
    out.append(safe.as_str());
    out.append(".");
    out.append(c.ext.as_str());
    out
}

/// Applies the inline-image candidates in order to the evolving HTML.
/// A candidate is materialized only if the original HTML references its
/// content-id and its bytes fit under the size cap; each materialized
/// candidate contributes one asset plan and has every `cid:` reference
/// to it rewritten to the asset's local address.
pub open spec fn spec_apply_cands(
    base: Seq<char>,
    html: Seq<char>,
    cands: Seq<CidCandView>,
    uid: int,
    prefix: Seq<char>,
) -> (Seq<char>, Seq<AssetPlanView>)
    decreases cands.len(),
{
    if cands.len() == 0 {
        (html, Seq::empty())
    } else {
        let c = cands[0];
        if cid_referenced(base, c.cid) && c.raw.len() <= MAX_INLINE_ASSET_BYTES {
            let fname = spec_file_name(uid, c);
            let h2 = crate::text::replace_all(html, "cid:"@ + c.cid, prefix + fname);
            let rec = spec_apply_cands(base, h2, cands.skip(1), uid, prefix);
            (rec.0, seq![AssetPlanView { file_name: fname, bytes: c.raw }] + rec.1)
        } else {
            spec_apply_cands(base, html, cands.skip(1), uid, prefix)
        }
    }
}

/// The whole pipeline after traversal: the rendered HTML and the asset
/// plans that inline-image rewriting produces for message `uid`.
pub open spec fn spec_extracted(root: MimePart, uid: int, prefix: Seq<char>) -> (
    Seq<char>,
    Seq<AssetPlanView>,
) {
    let base = spec_base_html(root);
    spec_apply_cands(base, base, cid_cands(root), uid, prefix)
}

/// Renders the decoded message `root` (see [`MimePart`]) for display.
///
/// Returns the final HTML and the list of inline-asset files to
/// materialize; every `cid:` reference whose image part was found and
/// fits under [`MAX_INLINE_ASSET_BYTES`] has been rewritten to
/// `asset_prefix` followed by the asset's file name.
pub fn extract_displayable_body(uid: u32, root: &MimePart, asset_prefix: &str) -> (r: (
    String,
    Vec<AssetPlan>,
))
    ensures
        r.0@ == spec_extracted(*root, uid as int, asset_prefix@).0,
        plans_view(r.1@) == spec_extracted(*root, uid as int, asset_prefix@).1,
{
    let mut html_best: Option<String> = None;
    let mut text_best: Option<String> = None;
    let mut cands: Vec<CidCandidate> = Vec::new();
    collect_candidates(root, &mut html_best, &mut text_best, &mut cands);
    proof {
        assert(cands_view(cands@) =~= cid_cands(*root));
    }
    let base: String = match html_best {
        Some(h) => h,
        None => match text_best {
            Some(t) => wrap_pre_exec(t.as_str()),
            None => wrap_pre_exec(root.text.as_str()),
        },
    };
    let ghost base0 = spec_base_html(*root);
    assert(base@ == base0);
    let mut html: String = base.clone();
    let mut plans: Vec<AssetPlan> = Vec::new();
    let ghost all = cands_view(cands@);
    let ghost total = spec_apply_cands(base0, base0, all, uid as int, asset_prefix@);
    let n = cands.len();
    let mut k: usize = 0;
    proof {
        assert(all.skip(0) =~= all);
    }
    while k < n
        invariant
            n == cands@.len(),
            0 <= k <= n,
            all == cands_view(cands@),
            base@ == base0,
            total == spec_apply_cands(base0, base0, all, uid as int, asset_prefix@),
            total.0 == spec_apply_cands(
                base0,
                html@,
                all.skip(k as int),
                uid as int,
                asset_prefix@,
            ).0,
            total.1 == plans_view(plans@) + spec_apply_cands(
                base0,
                html@,
                all.skip(k as int),
                uid as int,
                asset_prefix@,
            ).1,
        decreases n - k,
    {
        let c = &cands[k];
        let ghost rest = all.skip(k as int);
        proof {
            assert(rest[0] == cand_view(cands@[k as int]));
            assert(rest.skip(1) =~= all.skip(k + 1));
        }
        let referenced = cid_referenced_exec(base.as_str(), c.cid.as_str());
        if referenced && c.raw.len() <= MAX_INLINE_ASSET_BYTES {
            let fname = file_name_exec(uid, c);
            let mut pat = String::from_str("cid:");
            pat.append(c.cid.as_str());
            let mut url = String::from_str(asset_prefix);
            url.append(fname.as_str());
            proof {
                reveal_strlit("cid:");
            }
            let new_html = crate::text::replace_all_exec(html.as_str(), pat.as_str(), url.as_str());
            html = new_html;
            let raw_copy = c.raw.clone();
            proof {
                assert(raw_copy@ =~= c.raw@);
            }
            let plan = AssetPlan { file_name: fname, bytes: raw_copy };
            proof {
                assert(plan_view(plan) == (AssetPlanView {
                    file_name: spec_file_name(uid as int, rest[0]),
                    bytes: rest[0].raw,
                }));
            }
            let ghost prev_plans = plans_view(plans@);
            let ghost this_plan = plan_view(plan);
            plans.push(plan);
            proof {
                assert(plans_view(plans@) =~= prev_plans + seq![this_plan]);
            }
        }
        k += 1;
    }
    proof {
        assert(all.skip(n as int) =~= Seq::<CidCandView>::empty());
    }
    (html, plans)
}


/// Renders a fetched message for display: the full pipeline when the
/// raw bytes parsed into a part tree, and the escaped, preformatted
/// permissive decoding of the raw bytes when parsing failed (so the
/// persisted fallback never needs reparsing).
pub fn render_or_fallback(uid: u32, parsed: Option<&MimePart>, raw_text: &str, asset_prefix: &str) -> (r: (
    String,
    Vec<AssetPlan>,
))
    ensures
        match parsed {
            Some(p) => r.0@ == spec_extracted(*p, uid as int, asset_prefix@).0 && plans_view(r.1@)
                == spec_extracted(*p, uid as int, asset_prefix@).1,
            None => r.0@ == wrap_pre(raw_text@) && r.1@.len() == 0,
        },
{
    match parsed {
        Some(p) => extract_displayable_body(uid, p, asset_prefix),
        None => (wrap_pre_exec(raw_text), Vec::new()),
    }
}

} // verus!
