use vstd::prelude::*;

use vstd::string::*;
use vstd::utf8::*;

use crate::buffer::{new_string_512, push_str_512, text_of_512};
use crate::decimal::{decimal_round_trip, decimal_text, parse_unsigned, push_decimal};
use crate::text::{has_prefix, starts_with_bytes};

verus! {

/// Capacity of the device's request buffer.
pub const REQUEST_CAPACITY: usize = 512;

pub const REQUEST_LINE: &'static str = "POST /api/destroy HTTP/1.1\r\n";

pub const HOST_HEADER: &'static str = "Host: ";

pub const LINE_END: &'static str = "\r\n";

pub const CONTENT_TYPE_HEADER: &'static str = "Content-Type: application/json\r\n";

pub const CONTENT_LENGTH_HEADER: &'static str = "Content-Length: ";

pub const CONNECTION_HEADER: &'static str = "Connection: close\r\n";

/// The JSON body before the device id.
pub const BODY_OPEN: &'static str = "{\"device_id\":\"";

/// The JSON body after the device id.
pub const BODY_CLOSE: &'static str = "\"}";

/// Status line prefixes of a successful (2xx) answer.
pub const HTTP11_SUCCESS: &'static str = "HTTP/1.1 2";

pub const HTTP10_SUCCESS: &'static str = "HTTP/1.0 2";

/// Appending pieces to a buffer of capacity `cap`: each piece goes in whole
/// while it fits; the first piece that does not fit ends the run, and it and
/// the pieces after it are left out.
pub open spec fn append_fitting(buf: Seq<u8>, pieces: Seq<Seq<u8>>, cap: nat) -> Seq<u8>
    decreases pieces.len(),
{
    if pieces.len() == 0 {
        buf
    } else if buf.len() + pieces[0].len() <= cap {
        append_fitting(buf + pieces[0], pieces.drop_first(), cap)
    } else {
        buf
    }
}

/// Runs of pieces written one after another, each run as `append_fitting`.
pub open spec fn write_runs(buf: Seq<u8>, runs: Seq<Seq<Seq<u8>>>, cap: nat) -> Seq<u8>
    decreases runs.len(),
{
    if runs.len() == 0 {
        buf
    } else {
        write_runs(append_fitting(buf, runs[0], cap), runs.drop_first(), cap)
    }
}

/// Length of the JSON body that carries `device`.
pub open spec fn body_length(device: Seq<u8>) -> nat {
    BODY_OPEN.spec_bytes().len() + device.len() + BODY_CLOSE.spec_bytes().len()
}

/// The request as runs of pieces, one run per formatted write.
pub open spec fn request_runs(host: Seq<u8>, device: Seq<u8>) -> Seq<Seq<Seq<u8>>> {
    seq![
        seq![REQUEST_LINE.spec_bytes()],
        seq![HOST_HEADER.spec_bytes(), host, LINE_END.spec_bytes()],
        seq![CONTENT_TYPE_HEADER.spec_bytes()],
        seq![
            CONTENT_LENGTH_HEADER.spec_bytes(),
            encode_utf8(decimal_text(body_length(device))),
            LINE_END.spec_bytes(),
        ],
        seq![CONNECTION_HEADER.spec_bytes()],
        seq![LINE_END.spec_bytes()],
        seq![BODY_OPEN.spec_bytes(), device, BODY_CLOSE.spec_bytes()],
    ]
}

/// The bytes of the request that reports a press of `device` to `host`, as
/// they end up in the 512-byte buffer.
pub open spec fn destruction_request(host: Seq<u8>, device: Seq<u8>) -> Seq<u8> {
    write_runs(Seq::empty(), request_runs(host, device), REQUEST_CAPACITY as nat)
}

fn write_run(buf: &mut heapless::String<512>, pieces: &[&str])
    ensures
        text_of_512(*final(buf)) == append_fitting(
            text_of_512(*old(buf)),
            pieces@.map_values(|p: &str| p.spec_bytes()),
            512,
        ),
{
    let ghost all = pieces@.map_values(|p: &str| p.spec_bytes());
    assert(all.skip(0) == all);
    let mut i: usize = 0;
    while i < pieces.len()
        invariant
            i <= pieces@.len(),
            all == pieces@.map_values(|p: &str| p.spec_bytes()),
            append_fitting(text_of_512(*old(buf)), all, 512) == append_fitting(
                text_of_512(*buf),
                all.skip(i as int),
                512,
            ),
        decreases pieces.len() - i,
    {
        let ghost before = text_of_512(*buf);
        let ghost rest = all.skip(i as int);
        assert(rest[0] == pieces@[i as int].spec_bytes());
        assert(rest.drop_first() == all.skip(i + 1));
        let fits = push_str_512(buf, pieces[i]);
        if !fits {
            return;
        }
        i = i + 1;
    }
    assert(all.skip(i as int).len() == 0);
}

fn write_one(buf: &mut heapless::String<512>, piece: &str)
    ensures
        text_of_512(*final(buf)) == append_fitting(text_of_512(*old(buf)), seq![piece.spec_bytes()], 512),
{
    let _fits = push_str_512(buf, piece);
    proof {
        let one = seq![piece.spec_bytes()];
        assert(one.drop_first().len() == 0);
        reveal_with_fuel(append_fitting, 2);
    }
}

proof fn lemma_write_runs_step(buf: Seq<u8>, runs: Seq<Seq<Seq<u8>>>, k: int, next: Seq<u8>)
    requires
        0 <= k < runs.len(),
        next == append_fitting(buf, runs[k], 512),
    ensures
        write_runs(buf, runs.skip(k), 512) == write_runs(next, runs.skip(k + 1), 512),
{
    assert(runs.skip(k)[0] == runs[k]);
    assert(runs.skip(k).drop_first() == runs.skip(k + 1));
}

/// The HTTP request that reports a press of `device_id` to the backend at
/// `host`, framed in the device's 512-byte buffer exactly as the formatted
/// writes fill it.
pub fn build_destruction_request(host: &str, device_id: &str) -> (request: heapless::String<512>)
    requires
        body_length(device_id.spec_bytes()) <= usize::MAX,
    ensures
        text_of_512(request) == destruction_request(host.spec_bytes(), device_id.spec_bytes()),
{
    let content_length = BODY_OPEN.len() + device_id.len() + BODY_CLOSE.len();
    let mut length_text = String::new();
    push_decimal(&mut length_text, content_length);
    let length_str = length_text.as_str();
    let mut request = new_string_512();
    let ghost runs = request_runs(host.spec_bytes(), device_id.spec_bytes());
    let ghost b0 = text_of_512(request);

    write_one(&mut request, REQUEST_LINE);
    let ghost b1 = text_of_512(request);
    assert(seq![REQUEST_LINE.spec_bytes()] == runs[0]);

    write_run(&mut request, &[HOST_HEADER, host, LINE_END]);
    let ghost b2 = text_of_512(request);
    assert(seq![HOST_HEADER, host, LINE_END].map_values(|p: &str| p.spec_bytes()) == runs[1]);

    write_one(&mut request, CONTENT_TYPE_HEADER);
    let ghost b3 = text_of_512(request);
    assert(seq![CONTENT_TYPE_HEADER.spec_bytes()] == runs[2]);

    write_run(&mut request, &[CONTENT_LENGTH_HEADER, length_str, LINE_END]);
    let ghost b4 = text_of_512(request);
    assert(seq![CONTENT_LENGTH_HEADER, length_str, LINE_END].map_values(
        |p: &str| p.spec_bytes(),
    ) == runs[3]);

    write_one(&mut request, CONNECTION_HEADER);
    let ghost b5 = text_of_512(request);
    assert(seq![CONNECTION_HEADER.spec_bytes()] == runs[4]);

    write_one(&mut request, LINE_END);
    let ghost b6 = text_of_512(request);
    assert(seq![LINE_END.spec_bytes()] == runs[5]);

    write_run(&mut request, &[BODY_OPEN, device_id, BODY_CLOSE]);
    assert(seq![BODY_OPEN, device_id, BODY_CLOSE].map_values(|p: &str| p.spec_bytes())
        == runs[6]);

    let ghost b7 = text_of_512(request);
    proof {
        lemma_write_runs_step(b0, runs, 0, b1);
        lemma_write_runs_step(b1, runs, 1, b2);
        lemma_write_runs_step(b2, runs, 2, b3);
        lemma_write_runs_step(b3, runs, 3, b4);
        lemma_write_runs_step(b4, runs, 4, b5);
        lemma_write_runs_step(b5, runs, 5, b6);
        lemma_write_runs_step(b6, runs, 6, b7);
        assert(runs.skip(0) == runs);
        assert(runs.skip(7).len() == 0);
    }
    request
}

/// All pieces, one after another.
pub open spec fn concat_all(pieces: Seq<Seq<u8>>) -> Seq<u8>
    decreases pieces.len(),
{
    if pieces.len() == 0 {
        Seq::empty()
    } else {
        pieces[0] + concat_all(pieces.drop_first())
    }
}

/// All runs, one after another.
pub open spec fn runs_text(runs: Seq<Seq<Seq<u8>>>) -> Seq<u8>
    decreases runs.len(),
{
    if runs.len() == 0 {
        Seq::empty()
    } else {
        concat_all(runs[0]) + runs_text(runs.drop_first())
    }
}

/// The complete request: request line, the four headers, the blank line and the body.
pub open spec fn complete_request(host: Seq<u8>, device: Seq<u8>) -> Seq<u8> {
    REQUEST_LINE.spec_bytes() + HOST_HEADER.spec_bytes() + host + LINE_END.spec_bytes()
        + CONTENT_TYPE_HEADER.spec_bytes() + CONTENT_LENGTH_HEADER.spec_bytes() + encode_utf8(
        decimal_text(body_length(device)),
    ) + LINE_END.spec_bytes() + CONNECTION_HEADER.spec_bytes() + LINE_END.spec_bytes()
        + BODY_OPEN.spec_bytes() + device + BODY_CLOSE.spec_bytes()
}

proof fn lemma_fitting_all(buf: Seq<u8>, pieces: Seq<Seq<u8>>, cap: nat)
    requires
        buf.len() + concat_all(pieces).len() <= cap,
    ensures
        append_fitting(buf, pieces, cap) == buf + concat_all(pieces),
    decreases pieces.len(),
{
    if pieces.len() > 0 {
        lemma_fitting_all(buf + pieces[0], pieces.drop_first(), cap);
        assert(buf + pieces[0] + concat_all(pieces.drop_first()) == buf + concat_all(pieces));
    } else {
        assert(buf + concat_all(pieces) == buf);
    }
}

proof fn lemma_fitting_bounded(buf: Seq<u8>, pieces: Seq<Seq<u8>>, cap: nat)
    requires
        buf.len() <= cap,
    ensures
        append_fitting(buf, pieces, cap).len() <= cap,
    decreases pieces.len(),
{
    if pieces.len() > 0 && buf.len() + pieces[0].len() <= cap {
        lemma_fitting_bounded(buf + pieces[0], pieces.drop_first(), cap);
    }
}

proof fn lemma_runs_all(buf: Seq<u8>, runs: Seq<Seq<Seq<u8>>>, cap: nat)
    requires
        buf.len() + runs_text(runs).len() <= cap,
    ensures
        write_runs(buf, runs, cap) == buf + runs_text(runs),
    decreases runs.len(),
{
    if runs.len() > 0 {
        lemma_fitting_all(buf, runs[0], cap);
        lemma_runs_all(buf + concat_all(runs[0]), runs.drop_first(), cap);
        assert(buf + concat_all(runs[0]) + runs_text(runs.drop_first()) == buf + runs_text(runs));
    } else {
        assert(buf + runs_text(runs) == buf);
    }
}

proof fn lemma_runs_bounded(buf: Seq<u8>, runs: Seq<Seq<Seq<u8>>>, cap: nat)
    requires
        buf.len() <= cap,
    ensures
        write_runs(buf, runs, cap).len() <= cap,
    decreases runs.len(),
{
    if runs.len() > 0 {
        lemma_fitting_bounded(buf, runs[0], cap);
        lemma_runs_bounded(append_fitting(buf, runs[0], cap), runs.drop_first(), cap);
    }
}

/// The request built for the backend is never longer than the 512-byte buffer.
pub proof fn request_within_capacity(host: Seq<u8>, device: Seq<u8>)
    ensures
        destruction_request(host, device).len() <= REQUEST_CAPACITY,
{
    lemma_runs_bounded(Seq::empty(), request_runs(host, device), REQUEST_CAPACITY as nat);
}

/// When the complete request fits in the buffer nothing is cut: the device
/// sends the request line, the headers and the whole body, and the
/// Content-Length header, read back as a number, is the body's length.
pub proof fn request_complete_when_it_fits(host: Seq<u8>, device: Seq<u8>)
    requires
        complete_request(host, device).len() <= REQUEST_CAPACITY,
    ensures
        destruction_request(host, device) == complete_request(host, device),
        body_length(device) == (BODY_OPEN.spec_bytes() + device + BODY_CLOSE.spec_bytes()).len(),
        parse_unsigned(encode_utf8(decimal_text(body_length(device))), usize::MAX as nat) == Some(
            body_length(device),
        ),
{
    assert(body_length(device) <= complete_request(host, device).len());
    decimal_round_trip(body_length(device), usize::MAX as nat);
    let runs = request_runs(host, device);
    lemma_request_text(host, device);
    lemma_runs_all(Seq::empty(), runs, REQUEST_CAPACITY as nat);
    assert(Seq::<u8>::empty() + runs_text(runs) == runs_text(runs));
}

#[verifier::rlimit(40)]
proof fn lemma_request_text(host: Seq<u8>, device: Seq<u8>)
    ensures
        runs_text(request_runs(host, device)) == complete_request(host, device),
{
    let runs = request_runs(host, device);
    let r0 = REQUEST_LINE.spec_bytes();
    let r1 = HOST_HEADER.spec_bytes() + host + LINE_END.spec_bytes();
    let r2 = CONTENT_TYPE_HEADER.spec_bytes();
    let r3 = CONTENT_LENGTH_HEADER.spec_bytes() + encode_utf8(decimal_text(body_length(device)))
        + LINE_END.spec_bytes();
    let r4 = CONNECTION_HEADER.spec_bytes();
    let r5 = LINE_END.spec_bytes();
    let r6 = BODY_OPEN.spec_bytes() + device + BODY_CLOSE.spec_bytes();
    lemma_concat_one(runs[0]);
    lemma_concat_three(runs[1]);
    lemma_concat_one(runs[2]);
    lemma_concat_three(runs[3]);
    lemma_concat_one(runs[4]);
    lemma_concat_one(runs[5]);
    lemma_concat_three(runs[6]);
    assert(runs.skip(7).len() == 0);
    let t7 = runs_text(runs.skip(7));
    assert(t7 == Seq::<u8>::empty());
    lemma_runs_text_step(runs, 6);
    let t6 = runs_text(runs.skip(6));
    assert(t6 =~= r6);
    lemma_runs_text_step(runs, 5);
    let t5 = runs_text(runs.skip(5));
    assert(t5 == r5 + t6);
    lemma_runs_text_step(runs, 4);
    let t4 = runs_text(runs.skip(4));
    assert(t4 == r4 + t5);
    lemma_runs_text_step(runs, 3);
    let t3 = runs_text(runs.skip(3));
    assert(t3 == r3 + t4);
    lemma_runs_text_step(runs, 2);
    let t2 = runs_text(runs.skip(2));
    assert(t2 == r2 + t3);
    lemma_runs_text_step(runs, 1);
    let t1 = runs_text(runs.skip(1));
    assert(t1 == r1 + t2);
    lemma_runs_text_step(runs, 0);
    assert(runs.skip(0) == runs);
    assert(runs_text(runs) == r0 + t1);
    assert(r0 + (r1 + (r2 + (r3 + (r4 + (r5 + r6)))))  =~= complete_request(host, device));
}

proof fn lemma_concat_one(p: Seq<Seq<u8>>)
    requires
        p.len() == 1,
    ensures
        concat_all(p) == p[0],
{
    assert(p.drop_first().len() == 0);
    assert(concat_all(p.drop_first()) == Seq::<u8>::empty());
    assert(concat_all(p) == p[0] + concat_all(p.drop_first()));
    assert(p[0] + Seq::<u8>::empty() == p[0]);
}

proof fn lemma_concat_three(p: Seq<Seq<u8>>)
    requires
        p.len() == 3,
    ensures
        concat_all(p) == p[0] + p[1] + p[2],
{
    let t1 = p.drop_first();
    let t2 = t1.drop_first();
    lemma_concat_one(t2);
    assert(concat_all(t1) == t1[0] + concat_all(t2));
    assert(p[0] + (p[1] + p[2]) == p[0] + p[1] + p[2]);
}

proof fn lemma_runs_text_step(runs: Seq<Seq<Seq<u8>>>, k: int)
    requires
        0 <= k < runs.len(),
    ensures
        runs_text(runs.skip(k)) == concat_all(runs[k]) + runs_text(runs.skip(k + 1)),
{
    assert(runs.skip(k)[0] == runs[k]);
    assert(runs.skip(k).drop_first() == runs.skip(k + 1));
}

/// `core::str::from_utf8` succeeds exactly on well-formed UTF-8.
#[verifier::external_body]
fn is_utf8(bytes: &[u8]) -> (ok: bool)
    ensures
        ok == valid_utf8(bytes@),
{
    core::str::from_utf8(bytes).is_ok()
}

/// Whether the backend's answer reports success: it must be text (UTF-8) whose
/// status line starts with `HTTP/1.1 2` or `HTTP/1.0 2`.
pub open spec fn success_response(answer: Seq<u8>) -> bool {
    valid_utf8(answer) && (has_prefix(answer, HTTP11_SUCCESS.spec_bytes()) || has_prefix(
        answer,
        HTTP10_SUCCESS.spec_bytes(),
    ))
}

/// The first ten bytes of a successful answer: `HTTP/1.1 2` or `HTTP/1.0 2`.
pub open spec fn http11_2xx() -> Seq<u8> {
    seq![72u8, 84u8, 84u8, 80u8, 47u8, 49u8, 46u8, 49u8, 32u8, 50u8]
}

pub open spec fn http10_2xx() -> Seq<u8> {
    seq![72u8, 84u8, 84u8, 80u8, 47u8, 49u8, 46u8, 48u8, 32u8, 50u8]
}

proof fn lemma_ascii_literal_bytes(s: &str, bytes: Seq<u8>)
    requires
        s@.len() == bytes.len(),
        forall|i: int| 0 <= i < bytes.len() ==> bytes[i] < 128 && #[trigger] s@[i] == bytes[i] as char,
    ensures
        s.spec_bytes() == bytes,
{
    assert(is_ascii_chars(s@)) by {
        assert forall|i: int| 0 <= i < s@.len() implies '\0' <= #[trigger] s@[i] <= '\u{7f}' by {
            assert(s@[i] == bytes[i] as char);
        }
    }
    is_ascii_chars_encode_utf8(s@);
    assert forall|i: int| 0 <= i < bytes.len() implies s.spec_bytes()[i] == bytes[i] by {
        assert(s@[i] as u8 == s.spec_bytes()[i]);
        assert(s@[i] == bytes[i] as char);
    }
    assert(s.spec_bytes() =~= bytes);
}

/// An answer counts as success exactly when it is UTF-8 and its first ten
/// bytes are `HTTP/1.1 2` or `HTTP/1.0 2`; any other status (1xx, 3xx, 4xx,
/// 5xx, or no status line) is a failure.
pub proof fn success_means_2xx_status(answer: Seq<u8>)
    ensures
        success_response(answer) <==> valid_utf8(answer) && answer.len() >= 10 && (answer.take(10)
            == http11_2xx() || answer.take(10) == http10_2xx()),
        success_response(answer) ==> answer[9] == 50u8,
{
    reveal_strlit("HTTP/1.1 2");
    reveal_strlit("HTTP/1.0 2");
    lemma_ascii_literal_bytes(HTTP11_SUCCESS, http11_2xx());
    lemma_ascii_literal_bytes(HTTP10_SUCCESS, http10_2xx());
    if success_response(answer) {
        assert(answer.take(10)[9] == answer[9]);
    }
}

/// Reads the first bytes of the backend's answer and decides whether the
/// event was accepted.
pub fn is_success_response(answer: &[u8]) -> (ok: bool)
    ensures
        ok == success_response(answer@),
{
    if !is_utf8(answer) {
        return false;
    }
    starts_with_bytes(answer, HTTP11_SUCCESS.as_bytes()) || starts_with_bytes(
        answer,
        HTTP10_SUCCESS.as_bytes(),
    )
}


/// Why an event did not reach the backend before an answer could be read.
#[derive(Clone, Copy, Debug, PartialEq, Eq, Structural)]
pub enum DeliveryFailure {
    /// The configured backend address could not be read.
    BadAddress,
    /// The TCP connection could not be opened.
    Connect,
    /// The request could not be written.
    Send,
    /// No answer could be read.
    Receive,
}

/// Whether a press was delivered: only when the exchange got as far as an
/// answer, and the answer reports success.
pub fn event_delivered(exchange: Result<&[u8], DeliveryFailure>) -> (delivered: bool)
    ensures
        delivered == match exchange {
            Ok(answer) => success_response(answer@),
            Err(_) => false,
        },
{
    match exchange {
        Ok(answer) => is_success_response(answer),
        Err(_) => false,
    }
}

} // verus!
