//! Collecting a response body under the download limit.

use vstd::prelude::*;
use vstd::utf8::{decode_utf8, valid_utf8};

verus! {

/// No more than this is kept of a response.
pub const MAX_DOWNLOAD_BYTES: usize = 5_000_000;

/// What has been read of a response body.
#[derive(Debug)]
pub struct ResponseBody {
    pub bytes: Vec<u8>,
    /// Something was left out.
    pub truncated: bool,
}

/// What a [`ResponseBody`] says.
pub struct BodyModel {
    pub bytes: Seq<u8>,
    pub truncated: bool,
}

impl View for ResponseBody {
    type V = BodyModel;

    open spec fn view(&self) -> BodyModel {
        BodyModel { bytes: self.bytes@, truncated: self.truncated }
    }
}

impl BodyModel {
    /// Nothing has been read.
    pub open spec fn empty() -> BodyModel {
        BodyModel { bytes: Seq::empty(), truncated: false }
    }

    /// How many more bytes may be kept.
    pub open spec fn room(self) -> nat {
        if self.bytes.len() < MAX_DOWNLOAD_BYTES {
            (MAX_DOWNLOAD_BYTES - self.bytes.len()) as nat
        } else {
            0
        }
    }

    /// What is kept once `chunk` has arrived. A chunk that arrives when nothing more
    /// may be kept, or that is longer than what may be kept, truncates the body.
    pub open spec fn accept(self, chunk: Seq<u8>) -> BodyModel {
        if self.room() == 0 {
            BodyModel { bytes: self.bytes, truncated: true }
        } else if chunk.len() > self.room() {
            BodyModel { bytes: self.bytes + chunk.take(self.room() as int), truncated: true }
        } else {
            BodyModel { bytes: self.bytes + chunk, truncated: self.truncated }
        }
    }

    /// What is kept of a body that arrives as `chunks`: reading stops when the body is
    /// truncated.
    pub open spec fn accept_all(self, chunks: Seq<Seq<u8>>) -> BodyModel
        decreases chunks.len(),
    {
        if chunks.len() == 0 || self.truncated {
            self
        } else {
            self.accept(chunks[0]).accept_all(chunks.drop_first())
        }
    }
}

/// The text that bytes stand for when each ill-formed part of them is replaced by
/// U+FFFD.
pub uninterp spec fn utf8_lossy(bytes: Seq<u8>) -> Seq<char>;

/// Decodes `bytes` with `String::from_utf8_lossy`. The result, named [`utf8_lossy`],
/// depends on the bytes alone; well-formed UTF-8 is decoded as it is.
#[verifier::external_body]
fn decode_lossy(bytes: &[u8]) -> (res: String)
    ensures
        res@ == utf8_lossy(bytes@),
        valid_utf8(bytes@) ==> res@ == decode_utf8(bytes@),
{
    String::from_utf8_lossy(bytes).into_owned()
}

impl ResponseBody {
    /// A body of which nothing has been read.
    pub fn new() -> (res: ResponseBody)
        ensures
            res@ == BodyModel::empty(),
    {
        ResponseBody { bytes: Vec::new(), truncated: false }
    }

    /// Takes the next chunk, as far as it may be kept. The result says whether reading
    /// goes on.
    pub fn accept(&mut self, chunk: &[u8]) -> (more: bool)
        ensures
            final(self)@ == old(self)@.accept(chunk@),
            more == !final(self)@.truncated,
    {
        let kept = self.bytes.len();
        let room: usize = if kept < MAX_DOWNLOAD_BYTES {
            MAX_DOWNLOAD_BYTES - kept
        } else {
            0
        };
        if room == 0 {
            self.truncated = true;
        } else if chunk.len() > room {
            self.bytes.extend_from_slice(vstd::slice::slice_subrange(chunk, 0, room));
            self.truncated = true;
            assert(self.bytes@ =~= old(self)@.bytes + chunk@.take(room as int));
        } else {
            self.bytes.extend_from_slice(chunk);
            assert(self.bytes@ =~= old(self)@.bytes + chunk@);
        }
        !self.truncated
    }

    /// The text that was read, and whether something was left out.
    pub fn text(&self) -> (res: (String, bool))
        ensures
            res.0@ == utf8_lossy(self@.bytes),
            valid_utf8(self@.bytes) ==> res.0@ == decode_utf8(self@.bytes),
            res.1 == self@.truncated,
    {
        (decode_lossy(self.bytes.as_slice()), self.truncated)
    }
}

/// Whatever arrives, no more than the limit is kept.
pub proof fn law_body_stays_within_limit(body: BodyModel, chunks: Seq<Seq<u8>>)
    requires
        body.bytes.len() <= MAX_DOWNLOAD_BYTES,
    ensures
        body.accept_all(chunks).bytes.len() <= MAX_DOWNLOAD_BYTES,
    decreases chunks.len(),
{
    if chunks.len() > 0 && !body.truncated {
        law_body_stays_within_limit(body.accept(chunks[0]), chunks.drop_first());
    }
}

/// What is kept is the beginning of what arrives: all of it where it fits, and
/// otherwise as much as the limit allows.
pub proof fn law_body_is_prefix(body: BodyModel, chunks: Seq<Seq<u8>>)
    requires
        body.bytes.len() <= MAX_DOWNLOAD_BYTES,
        !body.truncated,
    ensures
        ({
            let sent = body.bytes + chunks.flatten();
            body.accept_all(chunks).bytes == if sent.len() <= MAX_DOWNLOAD_BYTES {
                sent
            } else {
                sent.take(MAX_DOWNLOAD_BYTES as int)
            }
        }),
    decreases chunks.len(),
{
    let sent = body.bytes + chunks.flatten();
    if chunks.len() == 0 {
        assert(sent =~= body.bytes);
    } else {
        let next = body.accept(chunks[0]);
        let rest = chunks.drop_first();
        assert(chunks.flatten() =~= chunks[0] + rest.flatten());
        if next.truncated {
            assert(next.accept_all(rest) == next);
            if body.room() == 0 {
                assert(sent.take(MAX_DOWNLOAD_BYTES as int) =~= body.bytes);
                if sent.len() <= MAX_DOWNLOAD_BYTES {
                    assert(sent =~= body.bytes);
                }
            } else {
                assert(sent.take(MAX_DOWNLOAD_BYTES as int) =~= next.bytes);
            }
        } else {
            law_body_is_prefix(next, rest);
            assert(next.bytes + rest.flatten() =~= sent);
        }
    }
}

/// A body whose chunks all hold something is reported as truncated exactly when it
/// is longer than the limit.
pub proof fn law_truncation_is_reported(body: BodyModel, chunks: Seq<Seq<u8>>)
    requires
        body.bytes.len() <= MAX_DOWNLOAD_BYTES,
        !body.truncated,
        forall|i: int| 0 <= i < chunks.len() ==> (#[trigger] chunks[i]).len() > 0,
    ensures
        body.accept_all(chunks).truncated <==> body.bytes.len() + chunks.flatten().len()
            > MAX_DOWNLOAD_BYTES,
    decreases chunks.len(),
{
    if chunks.len() > 0 {
        let next = body.accept(chunks[0]);
        let rest = chunks.drop_first();
        assert(chunks.flatten() =~= chunks[0] + rest.flatten());
        assert(chunks[0].len() > 0);
        if next.truncated {
            assert(next.accept_all(rest) == next);
        } else {
            assert forall|i: int| 0 <= i < rest.len() implies (#[trigger] rest[i]).len() > 0 by {
                assert(rest[i] == chunks[i + 1]);
            }
            law_truncation_is_reported(next, rest);
        }
    }
}

} // verus!
