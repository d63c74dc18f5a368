//! Laws of the server core, proved over the contracts of the other modules.

use vstd::prelude::*;

use crate::bytes::{
    all_digits, decimal_of, decimal_value, lead, lemma_decimal_round_trip, lemma_split_on_nonempty,
    parse_usize, split_on, trail, trim_slash,
};
use crate::method::HttpMethod;
use crate::request::{
    blank_len, content_length_name, content_length_of, decoded, first_blank_from,
    lemma_first_blank_is_blank, DecodeError, RequestView,
};
use crate::response::{
    content_type_name, header_line, http_version, json_content_type, ok_text, status_line,
    success_response,
};
use crate::router::{bindings, bindings_upto, is_param, segments, segments_match, Route, Router};

verus! {

proof fn lemma_split_extend(x: Seq<u8>, b: Seq<u8>, sep: u8)
    requires
        forall|i: int| 0 <= i < b.len() ==> b[i] != sep,
    ensures
        split_on(x + b, sep) == split_on(x, sep).update(
            split_on(x, sep).len() - 1,
            split_on(x, sep).last() + b,
        ),
    decreases b.len(),
{
    lemma_split_on_nonempty(x, sep);
    let s = split_on(x, sep);
    if b.len() == 0 {
        assert(x + b =~= x);
        assert(s.last() + b =~= s.last());
        assert(s.update(s.len() - 1, s.last() + b) =~= s);
    } else {
        let c = b.drop_last();
        lemma_split_extend(x, c, sep);
        assert((x + b).drop_last() =~= x + c);
        assert((x + b).last() == b.last());
        let p = split_on(x + c, sep);
        assert(p.last() == s.last() + c);
        assert(b[b.len() - 1] != sep);
        assert(split_on(x + b, sep) == p.update(p.len() - 1, p.last().push(b.last())));
        assert(p.last().push(b.last()) =~= s.last() + b);
        assert(split_on(x + b, sep) =~= s.update(s.len() - 1, s.last() + b));
    }
}

proof fn lemma_split_single(b: Seq<u8>, sep: u8)
    requires
        forall|i: int| 0 <= i < b.len() ==> b[i] != sep,
    ensures
        split_on(b, sep) == seq![b],
{
    lemma_split_extend(Seq::empty(), b, sep);
    assert(Seq::<u8>::empty() + b =~= b);
    assert(seq![Seq::<u8>::empty()].update(0, Seq::<u8>::empty() + b) =~= seq![b]);
}

/// Splitting `a`, a separator, and `b` (neither holding the separator) gives two pieces.
proof fn lemma_split_pair(a: Seq<u8>, b: Seq<u8>, sep: u8)
    requires
        forall|i: int| 0 <= i < a.len() ==> a[i] != sep,
        forall|i: int| 0 <= i < b.len() ==> b[i] != sep,
    ensures
        split_on(a + seq![sep] + b, sep) == seq![a, b],
{
    lemma_split_single(a, sep);
    let x = a + seq![sep];
    assert(x.drop_last() =~= a);
    assert(split_on(x, sep) =~= seq![a, Seq::<u8>::empty()]);
    lemma_split_extend(x, b, sep);
    assert(Seq::<u8>::empty() + b =~= b);
    assert(split_on(x + b, sep) =~= seq![a, b]);
}

/// Trimming `/` from `/` followed by `s`, where `s` neither starts nor ends with `/`.
proof fn lemma_trim_leading_slash(s: Seq<u8>)
    requires
        s.len() > 0,
        s[0] != 47,
        s.last() != 47,
    ensures
        trim_slash(seq![47u8] + s) == s,
{
    let p = seq![47u8] + s;
    assert(p.subrange(1, p.len() as int) =~= s);
    assert(lead(s, true) == 0);
    assert(lead(p, true) == 1);
    let rest = p.subrange(1, p.len() as int);
    assert(rest =~= s);
    assert(trail(s, true) == 0);
    assert(rest.subrange(0, rest.len() as int) =~= s);
}

pub open spec fn seg_orders() -> Seq<u8> {
    seq![111u8, 114, 100, 101, 114, 115]
}

pub open spec fn seg_id() -> Seq<u8> {
    seq![105u8, 100]
}

pub open spec fn seg_users() -> Seq<u8> {
    seq![117u8, 115, 101, 114, 115]
}

pub open spec fn seg_me() -> Seq<u8> {
    seq![109u8, 101]
}

/// `/` + `first` + `/` + `second`.
pub open spec fn two_segment_path(first: Seq<u8>, second: Seq<u8>) -> Seq<u8> {
    seq![47u8] + first + seq![47u8] + second
}

pub open spec fn no_slash(s: Seq<u8>) -> bool {
    forall|i: int| 0 <= i < s.len() ==> s[i] != 47
}

proof fn lemma_two_segments(first: Seq<u8>, second: Seq<u8>)
    requires
        first.len() > 0,
        second.len() > 0,
        no_slash(first),
        no_slash(second),
    ensures
        segments(two_segment_path(first, second)) == seq![first, second],
{
    let s = first + seq![47u8] + second;
    assert(two_segment_path(first, second) =~= seq![47u8] + s);
    assert(s[0] == first[0]);
    assert(s.last() == second.last());
    lemma_trim_leading_slash(s);
    lemma_split_pair(first, second, 47);
}

/// A parameter segment binds whatever the request holds in its place: for every method,
/// a route `/orders/:id` matches `/orders/<v>` for any non-empty segment `v`, numeric or
/// not, and binds `id` to `v`.
pub proof fn lemma_param_binds_any_value(route: Route, m: HttpMethod, v: Seq<u8>)
    requires
        route.path@ == two_segment_path(seg_orders(), seq![58u8] + seg_id()),
        route.method == m,
        v.len() > 0,
        no_slash(v),
    ensures
        route.matches(two_segment_path(seg_orders(), v), m),
        bindings(segments(route.path@), segments(two_segment_path(seg_orders(), v)))
            == seq![(seg_id(), v)],
{
    let tpl = seq![58u8] + seg_id();
    assert(no_slash(seg_orders()));
    assert(no_slash(tpl));
    lemma_two_segments(seg_orders(), tpl);
    lemma_two_segments(seg_orders(), v);
    let t = seq![seg_orders(), tpl];
    let r = seq![seg_orders(), v];
    assert(is_param(t[1]));
    assert(segments_match(t, r));
    assert(!is_param(t[0]));
    assert(bindings_upto(t, r, 0) == Seq::<(Seq<u8>, Seq<u8>)>::empty());
    assert(bindings_upto(t, r, 1) == bindings_upto(t, r, 0));
    assert(tpl.drop_first() =~= seg_id());
    assert(bindings_upto(t, r, 2) =~= seq![(seg_id(), v)]);
}

/// Segment counts must agree: a route `/a` never matches `/a/b`, whatever the method.
pub proof fn lemma_segment_count_mismatch(route: Route, m: HttpMethod)
    requires
        route.path@ == seq![47u8, 97],
    ensures
        !route.matches(two_segment_path(seq![97u8], seq![98u8]), m),
{
    let a = seq![97u8];
    assert(route.path@ =~= seq![47u8] + a);
    lemma_trim_leading_slash(a);
    assert(no_slash(a));
    lemma_split_single(a, 47);
    assert(no_slash(seq![98u8]));
    lemma_two_segments(a, seq![98u8]);
}

/// The first registered route wins: with `GET /users/:id` registered before `GET /users/me`,
/// both match `/users/me`, and the first binds `id` to `me`; so `get_route` answers with
/// the first.
pub proof fn lemma_first_registered_wins(router: Router)
    requires
        router.view().len() == 2,
        router.view()[0].path@ == two_segment_path(seg_users(), seq![58u8] + seg_id()),
        router.view()[0].method == HttpMethod::Get,
        router.view()[1].path@ == two_segment_path(seg_users(), seg_me()),
        router.view()[1].method == HttpMethod::Get,
    ensures
        router.view()[0].matches(two_segment_path(seg_users(), seg_me()), HttpMethod::Get),
        router.view()[1].matches(two_segment_path(seg_users(), seg_me()), HttpMethod::Get),
        bindings(
            segments(router.view()[0].path@),
            segments(two_segment_path(seg_users(), seg_me())),
        ) == seq![(seg_id(), seg_me())],
{
    let tpl = seq![58u8] + seg_id();
    assert(no_slash(seg_users()));
    assert(no_slash(tpl));
    assert(no_slash(seg_me()));
    lemma_two_segments(seg_users(), tpl);
    lemma_two_segments(seg_users(), seg_me());
    let t = seq![seg_users(), tpl];
    let r = seq![seg_users(), seg_me()];
    assert(is_param(t[1]));
    assert(segments_match(t, r));
    assert(segments_match(r, r));
    assert(!is_param(t[0]));
    assert(bindings_upto(t, r, 0) == Seq::<(Seq<u8>, Seq<u8>)>::empty());
    assert(bindings_upto(t, r, 1) == bindings_upto(t, r, 0));
    assert(tpl.drop_first() =~= seg_id());
    assert(bindings_upto(t, r, 2) =~= seq![(seg_id(), seg_me())]);
}

/// A success response reads back: its status line is `HTTP/1.1 200 OK`, it declares
/// `Content-Type: application/json`, its `Content-Length` reads back as the body's length,
/// and its last bytes are the body itself.
pub proof fn lemma_success_round_trip(body: Seq<u8>)
    requires
        body.len() <= usize::MAX,
    ensures
        success_response(body) == status_line(http_version(), 200, ok_text()) + header_line(
            content_type_name(),
            json_content_type(),
        ) + header_line(content_length_name(), decimal_of(body.len())) + seq![13u8, 10] + body,
        parse_usize(decimal_of(body.len())) == Some(body.len()),
        success_response(body).subrange(
            success_response(body).len() - body.len(),
            success_response(body).len() as int,
        ) == body,
{
    let r = success_response(body);
    let head = status_line(http_version(), 200, ok_text()) + header_line(
        content_type_name(),
        json_content_type(),
    ) + header_line(content_length_name(), decimal_of(body.len())) + seq![13u8, 10];
    assert(r =~= head + body);
    assert(r.subrange(head.len() as int, r.len() as int) =~= body);
    let d = decimal_of(body.len());
    lemma_decimal_round_trip(body.len());
    assert(d[0] != 43);
}

/// Decoding is a function of the bytes: replaying the same stream gives an equal request.
pub proof fn lemma_decode_replay(s: Seq<u8>, first: RequestView, second: RequestView)
    requires
        decoded(s) == Ok::<RequestView, DecodeError>(first),
        decoded(s) == Ok::<RequestView, DecodeError>(second),
    ensures
        first == second,
{
}

proof fn lemma_length_without_header(hs: Seq<(Seq<u8>, Seq<u8>)>)
    requires
        forall|i: int| 0 <= i < hs.len() ==> (#[trigger] hs[i]).0 != content_length_name(),
    ensures
        content_length_of(hs) == 0,
    decreases hs.len(),
{
    if hs.len() > 0 {
        assert(hs[0].0 != content_length_name());
        assert forall|i: int| 0 <= i < hs.drop_first().len() implies (
        #[trigger] hs.drop_first()[i]).0 != content_length_name() by {
            assert(hs.drop_first()[i] == hs[i + 1]);
        }
        lemma_length_without_header(hs.drop_first());
    }
}

proof fn lemma_length_zero_header(hs: Seq<(Seq<u8>, Seq<u8>)>, k: int)
    requires
        0 <= k < hs.len(),
        hs[k].0 == content_length_name(),
        hs[k].1 == seq![48u8],
        forall|i: int| 0 <= i < k ==> (#[trigger] hs[i]).0 != content_length_name(),
    ensures
        content_length_of(hs) == 0,
    decreases k,
{
    if k == 0 {
        let d = seq![48u8];
        assert(all_digits(d));
        assert(d.drop_last() =~= Seq::<u8>::empty());
        assert(decimal_value(d.drop_last()) == 0);
        assert(d.last() == 48);
        assert(decimal_value(d) == 0);
    } else {
        assert(hs[0].0 != content_length_name());
        let rest = hs.drop_first();
        assert(rest[k - 1] == hs[k]);
        assert forall|i: int| 0 <= i < k - 1 implies (#[trigger] rest[i]).0
            != content_length_name() by {
            assert(rest[i] == hs[i + 1]);
        }
        lemma_length_zero_header(rest, k - 1);
    }
}

proof fn lemma_body_empty_when_zero(s: Seq<u8>, v: RequestView)
    requires
        decoded(s) == Ok::<RequestView, DecodeError>(v),
        content_length_of(v.headers) == 0,
    ensures
        v.body == Some(Seq::<u8>::empty()),
{
    lemma_first_blank_is_blank(s, 0);
    let p = first_blank_from(s, 0)->0;
    let start = p + blank_len(s, p);
    assert(s.subrange(start, start) =~= Seq::<u8>::empty());
}

/// Without a `Content-Length` header the body is present and empty.
pub proof fn lemma_missing_length_empty_body(s: Seq<u8>, v: RequestView)
    requires
        decoded(s) == Ok::<RequestView, DecodeError>(v),
        forall|i: int| 0 <= i < v.headers.len() ==> (#[trigger] v.headers[i]).0 != content_length_name(),
    ensures
        v.body == Some(Seq::<u8>::empty()),
{
    lemma_length_without_header(v.headers);
    lemma_body_empty_when_zero(s, v);
}

/// With `Content-Length: 0` (the first such header) the body is present and empty.
pub proof fn lemma_zero_length_empty_body(s: Seq<u8>, v: RequestView, k: int)
    requires
        decoded(s) == Ok::<RequestView, DecodeError>(v),
        0 <= k < v.headers.len(),
        v.headers[k].0 == content_length_name(),
        v.headers[k].1 == seq![48u8],
        forall|i: int| 0 <= i < k ==> (#[trigger] v.headers[i]).0 != content_length_name(),
    ensures
        v.body == Some(Seq::<u8>::empty()),
{
    lemma_length_zero_header(v.headers, k);
    lemma_body_empty_when_zero(s, v);
}

} // verus!
