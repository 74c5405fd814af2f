//! Admission of a request over the byte-stream transport: the declared
//! length, the body, and the RPC id at its head.
use vstd::prelude::*;
use vstd::string::*;

verus! {

/// The status a request is answered with.
#[derive(Clone, Copy, Debug, PartialEq, Eq, Structural)]
pub enum Status {
    /// The call was served.
    Success,
    /// The declared length is not a number, or the body is too short to hold an id.
    BadRequest,
    /// The body holds an id but is longer or shorter than declared, or could
    /// not be read.
    PartialContent,
    /// The declared length is above the configured maximum.
    PayloadTooLarge,
    /// No function has the requested id.
    NotFound,
    /// The arguments did not decode.
    NotAcceptable,
    /// The request declares no length: streamed requests are not served.
    NotImplemented,
}

impl Status {
    pub open spec fn spec_code(self) -> u16 {
        match self {
            Status::Success => 200,
            Status::BadRequest => 400,
            Status::PartialContent => 206,
            Status::PayloadTooLarge => 413,
            Status::NotFound => 404,
            Status::NotAcceptable => 406,
            Status::NotImplemented => 501,
        }
    }

    /// The HTTP status code.
    pub fn code(&self) -> (r: u16)
        ensures
            r == self.spec_code(),
    {
        match self {
            Status::Success => 200,
            Status::BadRequest => 400,
            Status::PartialContent => 206,
            Status::PayloadTooLarge => 413,
            Status::NotFound => 404,
            Status::NotAcceptable => 406,
            Status::NotImplemented => 501,
        }
    }
}

/// The largest body accepted unless configured otherwise: 128 KiB.
pub const DEFAULT_MAX_PAYLOAD: u32 = 131072;

pub open spec fn is_digit(c: char) -> bool {
    '0' <= c && c <= '9'
}

pub open spec fn digit_value(c: char) -> nat {
    ((c as u32) - ('0' as u32)) as nat
}

/// The number that a run of decimal digits writes.
pub open spec fn digits_value(s: Seq<char>) -> nat
    decreases s.len(),
{
    if s.len() == 0 {
        0
    } else {
        digits_value(s.drop_last()) * 10 + digit_value(s.last())
    }
}

/// The text after an optional leading `+`.
pub open spec fn unsigned_part(s: Seq<char>) -> Seq<char> {
    if s.len() > 0 && s[0] == '+' { s.drop_first() } else { s }
}

pub open spec fn all_digits(d: Seq<char>) -> bool {
    forall|i: int| 0 <= i < d.len() ==> is_digit(#[trigger] d[i])
}

/// How an unsigned 32-bit integer is read from text: an optional `+`, then
/// one or more decimal digits, whose value fits.
pub open spec fn parse_u32_spec(s: Seq<char>) -> Option<u32> {
    let d = unsigned_part(s);
    if d.len() > 0 && all_digits(d) && digits_value(d) <= u32::MAX {
        Some(digits_value(d) as u32)
    } else {
        None
    }
}

proof fn lemma_digits_grow(s: Seq<char>, k: int)
    requires
        0 <= k <= s.len(),
    ensures
        digits_value(s.subrange(0, k)) <= digits_value(s),
    decreases s.len() - k,
{
    if k < s.len() {
        lemma_digits_grow(s, k + 1);
        let t = s.subrange(0, k + 1);
        assert(t.drop_last() =~= s.subrange(0, k));
    } else {
        assert(s.subrange(0, k) =~= s);
    }
}

/// Reads a declared length.
pub fn parse_content_length(s: &str) -> (r: Option<u32>)
    ensures
        r == parse_u32_spec(s@),
{
    let n = s.unicode_len();
    let mut start: usize = 0;
    if n > 0 && s.get_char(0) == '+' {
        start = 1;
    }
    let ghost d = unsigned_part(s@);
    if start == n {
        return None;
    }
    let mut acc: u64 = 0;
    let mut i: usize = start;
    while i < n
        invariant
            n == s@.len(),
            start <= i <= n,
            start < n,
            d == s@.subrange(start as int, n as int),
            d == unsigned_part(s@),
            forall|j: int| start <= j < i ==> is_digit(#[trigger] s@[j]),
            acc == digits_value(s@.subrange(start as int, i as int)),
            acc <= u32::MAX,
        decreases n - i,
    {
        let c = s.get_char(i);
        if !('0' <= c && c <= '9') {
            proof {
                assert(d[i - start] == c);
                assert(!is_digit(d[i - start]));
                assert(!all_digits(d));
            }
            return None;
        }
        let ghost t = s@.subrange(start as int, i + 1);
        proof {
            assert(t.drop_last() =~= s@.subrange(start as int, i as int));
            assert(t.last() == c);
            assert(digits_value(t) == digits_value(t.drop_last()) * 10 + digit_value(c));
        }
        acc = acc * 10 + ((c as u32) - ('0' as u32)) as u64;
        assert(acc == digits_value(t));
        i = i + 1;
        if acc > 4294967295 {
            proof {
                lemma_digits_grow(d, i - start);
                assert(d.subrange(0, i - start) =~= s@.subrange(start as int, i as int));
            }
            return None;
        }
    }
    proof {
        assert(d =~= s@.subrange(start as int, i as int));
        assert forall|j: int| 0 <= j < d.len() implies is_digit(#[trigger] d[j]) by {
            assert(d[j] == s@[j + start]);
        }
        assert(all_digits(d));
    }
    Some(acc as u32)
}

/// Where the admission check leaves a request whose declared length fits: its
/// body is read through this, and only through this.
#[derive(Debug)]
pub struct BodyReader {
    declared: u32,
    buf: Vec<u8>,
}

impl BodyReader {
    pub closed spec fn declared(&self) -> u32 {
        self.declared
    }

    pub closed spec fn received(&self) -> Seq<u8> {
        self.buf@
    }

    /// Adds a piece of the body as it arrives. A body that grows past its
    /// declared length is refused.
    pub fn push(&mut self, chunk: &[u8]) -> (r: Result<(), Status>)
        requires
            old(self).received().len() <= old(self).declared(),
        ensures
            final(self).declared() == old(self).declared(),
            r is Ok <==> old(self).received().len() + chunk@.len() <= old(self).declared(),
            r is Ok ==> final(self).received() == old(self).received() + chunk@,
            r matches Err(e) ==> e == Status::PartialContent,
            final(self).received().len() <= final(self).declared(),
    {
        if chunk.len() > (self.declared as usize) - self.buf.len() {
            return Err(Status::PartialContent);
        }
        let mut i: usize = 0;
        let ghost start = self.buf@;
        while i < chunk.len()
            invariant
                i <= chunk@.len(),
                self.declared == old(self).declared,
                start == old(self).buf@,
                start.len() + chunk@.len() <= self.declared,
                self.buf@ == start + chunk@.subrange(0, i as int),
            decreases chunk@.len() - i,
        {
            self.buf.push(chunk[i]);
            proof {
                assert(chunk@.subrange(0, i + 1) =~= chunk@.subrange(0, i as int).push(chunk@[i as int]));
            }
            i = i + 1;
        }
        assert(chunk@.subrange(0, chunk@.len() as int) =~= chunk@);
        Ok(())
    }

    /// The body is complete: it must hold at least the two bytes of an id, and
    /// be as long as declared. Gives the id, then the argument bytes.
    pub fn finish(self) -> (r: Result<(u16, Vec<u8>), Status>)
        ensures
            self.received().len() < 2 ==> r == Err::<(u16, Vec<u8>), Status>(Status::BadRequest),
            self.received().len() >= 2 && self.received().len() != self.declared()
                ==> r == Err::<(u16, Vec<u8>), Status>(Status::PartialContent),
            self.received().len() >= 2 && self.received().len() == self.declared() ==> r is Ok
                && r->Ok_0.0 == request_id(self.received())
                && r->Ok_0.1@ == self.received().subrange(2, self.received().len() as int),
    {
        if self.buf.len() < 2 {
            return Err(Status::BadRequest);
        }
        if self.buf.len() != self.declared as usize {
            return Err(Status::PartialContent);
        }
        split_request(self.buf.as_slice())
    }
}

/// The RPC id at the head of a request: two bytes, little-endian.
pub open spec fn request_id(body: Seq<u8>) -> u16 {
    (body[0] as int + 256 * body[1] as int) as u16
}

/// Splits a request body into its RPC id and its argument bytes.
pub fn split_request(body: &[u8]) -> (r: Result<(u16, Vec<u8>), Status>)
    ensures
        body@.len() < 2 ==> r == Err::<(u16, Vec<u8>), Status>(Status::BadRequest),
        body@.len() >= 2 ==> r is Ok && r->Ok_0.0 == request_id(body@)
            && r->Ok_0.1@ == body@.subrange(2, body@.len() as int),
{
    if body.len() < 2 {
        return Err(Status::BadRequest);
    }
    let id: u16 = body[0] as u16 + 256 * (body[1] as u16);
    let mut args: Vec<u8> = Vec::new();
    let mut i: usize = 2;
    while i < body.len()
        invariant
            2 <= i <= body@.len(),
            args@ == body@.subrange(2, i as int),
        decreases body@.len() - i,
    {
        args.push(body[i]);
        proof {
            assert(body@.subrange(2, i + 1) =~= body@.subrange(2, i as int).push(body@[i as int]));
        }
        i = i + 1;
    }
    Ok((id, args))
}

/// The check made before any body byte is read: a request must declare its
/// length, as a number, and no more than `max`. Where it passes, the body is
/// read through the returned reader.
pub fn check_request(content_length: Option<&str>, max: u32) -> (r: Result<BodyReader, Status>)
    ensures
        match content_length {
            None => r is Err && r->Err_0 == Status::NotImplemented,
            Some(s) => match parse_u32_spec(s@) {
                None => r is Err && r->Err_0 == Status::BadRequest,
                Some(n) => if n > max {
                    r is Err && r->Err_0 == Status::PayloadTooLarge
                } else {
                    r is Ok && r->Ok_0.declared() == n && r->Ok_0.received().len() == 0
                },
            },
        },
{
    match content_length {
        None => Err(Status::NotImplemented),
        Some(s) => match parse_content_length(s) {
            None => Err(Status::BadRequest),
            Some(n) => {
                if n > max {
                    Err(Status::PayloadTooLarge)
                } else {
                    Ok(BodyReader { declared: n, buf: Vec::new() })
                }
            },
        },
    }
}

} // verus!
