//! Translating a raw HTTP request into the environment mapping and the
//! buffered input stream handed to the application.
//!
//! The request target is split at the first `?` into path and query. Each
//! request header lands in the environment: `Content-Type` and
//! `Content-Length` (matched case-insensitively) under their own keys, every
//! other header under `HTTP_<NAME>`, where `<NAME>` is the header name
//! upper-cased with `-` replaced by `_`. Values of repeated names are joined
//! with `, ` in encounter order.

use vstd::prelude::*;
use vstd::slice::{slice_subrange, slice_to_vec};
use vstd::string::StringSliceAdditionalSpecFns;
use crate::error::GatewayError;
use crate::input::InputStream;
use crate::scan::{find_byte, find_byte_in, lemma_find_byte_at, lemma_find_byte_bounds};

verus! {

/// Marker separating the path from the query in a request target (`?`).
pub const QUERY_MARKER: u8 = 63;

/// First byte of every absolute-path request target (`/`).
pub const PATH_START: u8 = 47;

/// An upper-case ASCII byte lowered; any other byte unchanged.
pub open spec fn lower_byte(b: u8) -> u8 {
    if 65 <= b && b <= 90 {
        (b + 32) as u8
    } else {
        b
    }
}

/// A byte of a folded header name: `-` becomes `_`, lower-case ASCII
/// becomes upper-case, any other byte is unchanged.
pub open spec fn fold_byte(b: u8) -> u8 {
    if b == 45 {
        95
    } else if 97 <= b && b <= 122 {
        (b - 32) as u8
    } else {
        b
    }
}

/// Case-insensitive equality of two byte strings (ASCII case folding).
pub open spec fn eq_ignore_case(a: Seq<u8>, b: Seq<u8>) -> bool {
    a.map_values(|x: u8| lower_byte(x)) == b.map_values(|x: u8| lower_byte(x))
}

/// Does a header name select the `CONTENT_TYPE` key?
pub open spec fn is_content_type_name(name: Seq<u8>) -> bool {
    eq_ignore_case(name, "content-type".spec_bytes())
}

/// Does a header name select the `CONTENT_LENGTH` key?
pub open spec fn is_content_length_name(name: Seq<u8>) -> bool {
    eq_ignore_case(name, "content-length".spec_bytes())
}

/// The environment key a request header folds to: `HTTP_` followed by the
/// name upper-cased with `-` replaced by `_`.
pub open spec fn folded_name(name: Seq<u8>) -> Seq<u8> {
    "HTTP_".spec_bytes() + name.map_values(|x: u8| fold_byte(x))
}

/// The separator between joined values of a repeated header name: the two
/// bytes of `, `.
pub open spec fn value_separator() -> Seq<u8> {
    seq![44u8, 32u8]
}

/// Is the request target a recognizable absolute-path form?
pub open spec fn is_absolute_path(target: Seq<u8>) -> bool {
    target.len() > 0 && target[0] == PATH_START
}

/// Path part of a request target: everything before the first `?`, or the
/// whole target when there is none.
pub open spec fn path_of(target: Seq<u8>) -> Seq<u8> {
    target.take(find_byte(target, QUERY_MARKER))
}

/// Query part of a request target: everything after the first `?`, or
/// empty when there is none.
pub open spec fn query_of(target: Seq<u8>) -> Seq<u8> {
    let i = find_byte(target, QUERY_MARKER);
    if i < target.len() {
        target.skip(i + 1)
    } else {
        Seq::empty()
    }
}

/// A target without a query marker keeps its whole text as the path and has
/// an empty query string.
pub proof fn lemma_no_marker_no_query(target: Seq<u8>)
    requires
        forall|j: int| 0 <= j < target.len() ==> target[j] != QUERY_MARKER,
    ensures
        query_of(target) == Seq::<u8>::empty(),
        path_of(target) == target,
{
    lemma_find_byte_at(target, QUERY_MARKER, target.len() as int);
    assert(target.take(target.len() as int) =~= target);
}

/// The views of a sequence of header pairs.
pub open spec fn header_views(hs: Seq<(Vec<u8>, Vec<u8>)>) -> Seq<(Seq<u8>, Seq<u8>)> {
    hs.map_values(|p: (Vec<u8>, Vec<u8>)| (p.0@, p.1@))
}

/// The view of an optional byte string.
pub open spec fn opt_bytes(o: Option<Vec<u8>>) -> Option<Seq<u8>> {
    match o {
        Option::None => Option::None,
        Option::Some(v) => Option::Some(v@),
    }
}

/// Index of the first entry carrying `name`, or the number of entries when
/// none does.
pub open spec fn entry_index(entries: Seq<(Seq<u8>, Seq<u8>)>, name: Seq<u8>) -> int
    decreases entries.len(),
{
    if entries.len() == 0 {
        0
    } else if entries[0].0 == name {
        0
    } else {
        1 + entry_index(entries.skip(1), name)
    }
}

/// `entry_index` points at the first entry of the name: every entry before
/// it carries another name, and the index is in bounds exactly when the
/// name occurs at all.
pub proof fn lemma_entry_index_bounds(entries: Seq<(Seq<u8>, Seq<u8>)>, name: Seq<u8>)
    ensures
        0 <= entry_index(entries, name) <= entries.len(),
        entry_index(entries, name) < entries.len() ==> entries[entry_index(entries, name)].0
            == name,
        forall|j: int| 0 <= j < entry_index(entries, name) ==> entries[j].0 != name,
    decreases entries.len(),
{
    if entries.len() == 0 {
    } else if entries[0].0 == name {
    } else {
        lemma_entry_index_bounds(entries.skip(1), name);
        assert forall|j: int| 0 <= j < entry_index(entries, name) implies entries[j].0 != name by {
            if j > 0 {
                assert(entries.skip(1)[j - 1] == entries[j]);
            }
        }
    }
}

/// An index with no entry of the name before it, and an entry of the name
/// (or the end) at it, is exactly `entry_index`.
pub proof fn lemma_entry_index_at(entries: Seq<(Seq<u8>, Seq<u8>)>, name: Seq<u8>, i: int)
    requires
        0 <= i <= entries.len(),
        forall|j: int| 0 <= j < i ==> entries[j].0 != name,
        i < entries.len() ==> entries[i].0 == name,
    ensures
        entry_index(entries, name) == i,
    decreases entries.len(),
{
    if entries.len() == 0 {
    } else if entries[0].0 == name {
        assert(i == 0);
    } else {
        assert(entries[0].0 != name);
        assert(i >= 1);
        assert forall|j: int| 0 <= j < i - 1 implies entries.skip(1)[j].0 != name by {
            assert(entries.skip(1)[j] == entries[j + 1]);
        }
        if i - 1 < entries.skip(1).len() {
            assert(entries.skip(1)[i - 1] == entries[i]);
        }
        lemma_entry_index_at(entries.skip(1), name, i - 1);
    }
}

/// A further value of an already-seen key joined onto the value so far.
pub open spec fn merged(acc: Option<Seq<u8>>, value: Seq<u8>) -> Option<Seq<u8>> {
    match acc {
        Option::None => Option::Some(value),
        Option::Some(prev) => Option::Some(prev + value_separator() + value),
    }
}

/// One non-content header folded into the ordered `HTTP_*` entries: joined
/// onto the first entry of the same name, or appended as a new entry.
pub open spec fn fold_step(
    entries: Seq<(Seq<u8>, Seq<u8>)>,
    name: Seq<u8>,
    value: Seq<u8>,
) -> Seq<(Seq<u8>, Seq<u8>)> {
    let i = entry_index(entries, name);
    if 0 <= i && i < entries.len() {
        entries.update(i, (name, entries[i].1 + value_separator() + value))
    } else {
        entries.push((name, value))
    }
}

/// The ordered `HTTP_*` entries of a header sequence: `Content-Type` and
/// `Content-Length` are left out; every other header is folded in, in
/// order.
pub open spec fn http_entries(headers: Seq<(Seq<u8>, Seq<u8>)>) -> Seq<(Seq<u8>, Seq<u8>)>
    decreases headers.len(),
{
    if headers.len() == 0 {
        Seq::empty()
    } else {
        let prev = http_entries(headers.drop_last());
        let h = headers.last();
        if is_content_type_name(h.0) || is_content_length_name(h.0) {
            prev
        } else {
            fold_step(prev, folded_name(h.0), h.1)
        }
    }
}

/// The `CONTENT_TYPE` value of a header sequence: the values of every
/// header named `content-type` (case-insensitively), joined in order; or
/// nothing when there is none.
pub open spec fn content_type_of(headers: Seq<(Seq<u8>, Seq<u8>)>) -> Option<Seq<u8>>
    decreases headers.len(),
{
    if headers.len() == 0 {
        Option::None
    } else {
        let prev = content_type_of(headers.drop_last());
        let h = headers.last();
        if is_content_type_name(h.0) {
            merged(prev, h.1)
        } else {
            prev
        }
    }
}

/// The `CONTENT_LENGTH` value, built exactly as `content_type_of`.
pub open spec fn content_length_of(headers: Seq<(Seq<u8>, Seq<u8>)>) -> Option<Seq<u8>>
    decreases headers.len(),
{
    if headers.len() == 0 {
        Option::None
    } else {
        let prev = content_length_of(headers.drop_last());
        let h = headers.last();
        if is_content_length_name(h.0) {
            merged(prev, h.1)
        } else {
            prev
        }
    }
}

/// A content header contributes nothing to the `HTTP_*` entries: in
/// particular, a `Content-Type` header is never duplicated under
/// `HTTP_CONTENT_TYPE`.
pub proof fn lemma_content_header_not_folded(
    headers: Seq<(Seq<u8>, Seq<u8>)>,
    h: (Seq<u8>, Seq<u8>),
)
    requires
        is_content_type_name(h.0) || is_content_length_name(h.0),
    ensures
        http_entries(headers.push(h)) == http_entries(headers),
{
    assert(headers.push(h).drop_last() =~= headers);
    assert(headers.push(h).last() == h);
}

/// A header of a fresh, non-content name appends exactly one entry,
/// `HTTP_<NAME>` with the header's own value, after the entries already
/// collected.
pub proof fn lemma_fresh_header_appended(headers: Seq<(Seq<u8>, Seq<u8>)>, h: (Seq<u8>, Seq<u8>))
    requires
        !is_content_type_name(h.0),
        !is_content_length_name(h.0),
        forall|j: int|
            0 <= j < http_entries(headers).len() ==> http_entries(headers)[j].0 != folded_name(
                h.0,
            ),
    ensures
        http_entries(headers.push(h)) == http_entries(headers).push((folded_name(h.0), h.1)),
{
    assert(headers.push(h).drop_last() =~= headers);
    assert(headers.push(h).last() == h);
    lemma_entry_index_at(http_entries(headers), folded_name(h.0), http_entries(headers).len() as int);
}

fn lower_byte_of(b: u8) -> (r: u8)
    ensures
        r == lower_byte(b),
{
    if 65 <= b && b <= 90 {
        b + 32
    } else {
        b
    }
}

fn fold_byte_of(b: u8) -> (r: u8)
    ensures
        r == fold_byte(b),
{
    if b == 45 {
        95
    } else if 97 <= b && b <= 122 {
        b - 32
    } else {
        b
    }
}

/// Case-insensitive comparison of two byte strings.
pub fn bytes_eq_ignore_case(a: &[u8], b: &[u8]) -> (r: bool)
    ensures
        r == eq_ignore_case(a@, b@),
{
    if a.len() != b.len() {
        proof {
            assert(a@.map_values(|x: u8| lower_byte(x)).len() != b@.map_values(
                |x: u8| lower_byte(x),
            ).len());
        }
        return false;
    }
    let mut i: usize = 0;
    while i < a.len()
        invariant
            a@.len() == b@.len(),
            0 <= i <= a@.len(),
            forall|j: int| 0 <= j < i ==> lower_byte(a@[j]) == lower_byte(b@[j]),
        decreases a@.len() - i,
    {
        if lower_byte_of(a[i]) != lower_byte_of(b[i]) {
            proof {
                assert(a@.map_values(|x: u8| lower_byte(x))[i as int] != b@.map_values(
                    |x: u8| lower_byte(x),
                )[i as int]);
            }
            return false;
        }
        i = i + 1;
    }
    proof {
        assert(a@.map_values(|x: u8| lower_byte(x)) =~= b@.map_values(|x: u8| lower_byte(x)));
    }
    true
}

/// A copy of a byte string.
pub(crate) fn clone_bytes(v: &Vec<u8>) -> (r: Vec<u8>)
    ensures
        r@ == v@,
{
    let r = v.clone();
    proof {
        assert(r@ =~= v@);
    }
    r
}

/// The environment key a header folds to, built from its name.
pub fn fold_header_name(name: &Vec<u8>) -> (r: Vec<u8>)
    ensures
        r@ == folded_name(name@),
{
    let mut out: Vec<u8> = slice_to_vec("HTTP_".as_bytes());
    let mut i: usize = 0;
    while i < name.len()
        invariant
            0 <= i <= name@.len(),
            out@ == "HTTP_".spec_bytes() + name@.take(i as int).map_values(|x: u8| fold_byte(x)),
        decreases name@.len() - i,
    {
        out.push(fold_byte_of(name[i]));
        proof {
            assert(name@.take(i as int + 1).map_values(|x: u8| fold_byte(x)) =~= name@.take(
                i as int,
            ).map_values(|x: u8| fold_byte(x)).push(fold_byte(name@[i as int])));
        }
        i = i + 1;
    }
    proof {
        assert(name@.take(name@.len() as int) =~= name@);
    }
    out
}

/// A header value joined onto the value collected so far for its key.
fn merge_value(acc: Option<Vec<u8>>, value: &Vec<u8>) -> (r: Vec<u8>)
    ensures
        Option::Some(r@) == merged(opt_bytes(acc), value@),
{
    match acc {
        Option::None => clone_bytes(value),
        Option::Some(prev) => {
            let mut joined = prev;
            let ghost before = joined@;
            joined.push(44);
            joined.push(32);
            let mut k: usize = 0;
            while k < value.len()
                invariant
                    0 <= k <= value@.len(),
                    joined@ == before + value_separator() + value@.take(k as int),
                decreases value@.len() - k,
            {
                joined.push(value[k]);
                proof {
                    assert(before + value_separator() + value@.take(k as int + 1) =~= (before
                        + value_separator() + value@.take(k as int)).push(value@[k as int]));
                }
                k = k + 1;
            }
            proof {
                assert(value@.take(value@.len() as int) =~= value@);
            }
            joined
        },
    }
}

/// Exact equality of two byte strings.
fn bytes_eq(a: &Vec<u8>, b: &Vec<u8>) -> (r: bool)
    ensures
        r == (a@ == b@),
{
    if a.len() != b.len() {
        return false;
    }
    let mut i: usize = 0;
    while i < a.len()
        invariant
            a@.len() == b@.len(),
            0 <= i <= a@.len(),
            forall|j: int| 0 <= j < i ==> a@[j] == b@[j],
        decreases a@.len() - i,
    {
        if a[i] != b[i] {
            return false;
        }
        i = i + 1;
    }
    proof {
        assert(a@ =~= b@);
    }
    true
}

/// First entry of the collected `HTTP_*` list carrying `name`, or the
/// number of entries when none does.
fn find_entry(entries: &Vec<(Vec<u8>, Vec<u8>)>, name: &Vec<u8>) -> (r: usize)
    ensures
        r == entry_index(header_views(entries@), name@),
{
    let ghost views = header_views(entries@);
    let mut i: usize = 0;
    while i < entries.len()
        invariant
            views == header_views(entries@),
            0 <= i <= entries@.len(),
            forall|j: int| 0 <= j < i ==> header_views(entries@)[j].0 != name@,
        decreases entries@.len() - i,
    {
        proof {
            assert(header_views(entries@)[i as int].0 == entries@[i as int].0@);
        }
        if bytes_eq(&entries[i].0, name) {
            proof {
                lemma_entry_index_at(views, name@, i as int);
            }
            return i;
        }
        i = i + 1;
    }
    proof {
        lemma_entry_index_at(views, name@, i as int);
    }
    i
}

/// A raw HTTP request as the transport collaborator delivers it: the
/// request-line pieces, the header pairs in order, and the fully buffered
/// body.
pub struct Request {
    pub method: Vec<u8>,
    pub target: Vec<u8>,
    pub protocol: Vec<u8>,
    pub headers: Vec<(Vec<u8>, Vec<u8>)>,
    pub body: Vec<u8>,
}

/// The per-request environment mapping handed to the application: the
/// required request keys, the two content keys when the request carried
/// them, the ordered `HTTP_*` entries, and the fixed protocol metadata
/// (version marker 1.0, scheme `http`, multithread but neither
/// multiprocess nor run-once). Built fresh per request and never mutated
/// afterwards.
pub struct Environ {
    pub request_method: Vec<u8>,
    pub script_name: Vec<u8>,
    pub path_info: Vec<u8>,
    pub query_string: Vec<u8>,
    pub server_name: Vec<u8>,
    pub server_port: Vec<u8>,
    pub server_protocol: Vec<u8>,
    pub content_type: Option<Vec<u8>>,
    pub content_length: Option<Vec<u8>>,
    pub http_headers: Vec<(Vec<u8>, Vec<u8>)>,
    pub url_scheme: Vec<u8>,
    pub version_major: u32,
    pub version_minor: u32,
    pub multithread: bool,
    pub multiprocess: bool,
    pub run_once: bool,
}

/// Build the environment mapping and the input stream for one request.
///
/// Succeeds exactly on absolute-path targets; any other target form is a
/// malformed request, to be answered with `400`, not a process abort.
pub fn translate(req: Request) -> (r: Result<(Environ, InputStream), GatewayError>)
    ensures
        r is Ok <==> is_absolute_path(req.target@),
        r matches Err(e) ==> e == GatewayError::MalformedRequest,
        r matches Ok(es) ==> {
            &&& es.0.request_method@ == req.method@
            &&& es.0.script_name@ == Seq::<u8>::empty()
            &&& es.0.path_info@ == path_of(req.target@)
            &&& es.0.query_string@ == query_of(req.target@)
            &&& es.0.server_name@ == "127.0.0.1".spec_bytes()
            &&& es.0.server_port@ == "9000".spec_bytes()
            &&& es.0.server_protocol@ == req.protocol@
            &&& opt_bytes(es.0.content_type) == content_type_of(header_views(req.headers@))
            &&& opt_bytes(es.0.content_length) == content_length_of(header_views(req.headers@))
            &&& header_views(es.0.http_headers@) == http_entries(header_views(req.headers@))
            &&& es.0.url_scheme@ == "http".spec_bytes()
            &&& es.0.version_major == 1
            &&& es.0.version_minor == 0
            &&& es.0.multithread
            &&& !es.0.multiprocess
            &&& !es.0.run_once
            &&& es.1@ == req.body@
        },
{
    if req.target.len() == 0 || req.target[0] != PATH_START {
        return Err(GatewayError::MalformedRequest);
    }
    proof {
        lemma_find_byte_bounds(req.target@, QUERY_MARKER);
    }
    let q: usize = find_byte_in(&req.target, QUERY_MARKER);
    let path_info: Vec<u8> = slice_to_vec(slice_subrange(req.target.as_slice(), 0, q));
    let query_string: Vec<u8> = if q < req.target.len() {
        slice_to_vec(slice_subrange(req.target.as_slice(), q + 1, req.target.len()))
    } else {
        Vec::new()
    };
    proof {
        assert(path_info@ =~= path_of(req.target@));
        assert(query_string@ =~= query_of(req.target@));
    }

    let ghost hv = header_views(req.headers@);
    let mut content_type: Option<Vec<u8>> = None;
    let mut content_length: Option<Vec<u8>> = None;
    let mut http_headers: Vec<(Vec<u8>, Vec<u8>)> = Vec::new();
    let mut i: usize = 0;
    while i < req.headers.len()
        invariant
            0 <= i <= req.headers.len(),
            hv == header_views(req.headers@),
            opt_bytes(content_type) == content_type_of(hv.take(i as int)),
            opt_bytes(content_length) == content_length_of(hv.take(i as int)),
            header_views(http_headers@) == http_entries(hv.take(i as int)),
        decreases req.headers.len() - i,
    {
        let name: &Vec<u8> = &req.headers[i].0;
        let value: &Vec<u8> = &req.headers[i].1;
        proof {
            assert(hv[i as int] == (req.headers@[i as int].0@, req.headers@[i as int].1@));
            assert(hv.take(i as int + 1).drop_last() =~= hv.take(i as int));
            assert(hv.take(i as int + 1).last() == hv[i as int]);
        }
        let ct_match = bytes_eq_ignore_case(name.as_slice(), "content-type".as_bytes());
        let cl_match = bytes_eq_ignore_case(name.as_slice(), "content-length".as_bytes());
        if ct_match {
            content_type = Some(merge_value(content_type, value));
        }
        if cl_match {
            content_length = Some(merge_value(content_length, value));
        }
        if !ct_match && !cl_match {
            let fname = fold_header_name(name);
            let j: usize = find_entry(&http_headers, &fname);
            let ghost old_entries = header_views(http_headers@);
            proof {
                lemma_entry_index_bounds(old_entries, fname@);
            }
            if j < http_headers.len() {
                let cur = clone_bytes(&http_headers[j].1);
                proof {
                    assert(cur@ == old_entries[j as int].1);
                }
                let nv = merge_value(Some(cur), value);
                http_headers.set(j, (fname, nv));
                proof {
                    assert(header_views(http_headers@) =~= old_entries.update(
                        j as int,
                        (folded_name(name@), old_entries[j as int].1 + value_separator()
                            + value@),
                    ));
                }
            } else {
                http_headers.push((fname, clone_bytes(value)));
                proof {
                    assert(header_views(http_headers@) =~= old_entries.push(
                        (folded_name(name@), value@),
                    ));
                }
            }
        }
        i = i + 1;
    }
    proof {
        assert(hv.take(req.headers@.len() as int) =~= hv);
    }

    let environ = Environ {
        request_method: req.method,
        script_name: Vec::new(),
        path_info,
        query_string,
        server_name: slice_to_vec("127.0.0.1".as_bytes()),
        server_port: slice_to_vec("9000".as_bytes()),
        server_protocol: req.protocol,
        content_type,
        content_length,
        http_headers,
        url_scheme: slice_to_vec("http".as_bytes()),
        version_major: 1,
        version_minor: 0,
        multithread: true,
        multiprocess: false,
        run_once: false,
    };
    let stream = InputStream::new(req.body);
    Ok((environ, stream))
}

} // verus!
