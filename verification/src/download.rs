//! The model download: whether the installed file is current, whether a partial download may
//! be resumed, and the transfer itself as a state machine that hashes every byte of the partial
//! file (SHA-256, `ring`), asks for the missing range, restarts when the server ignores it,
//! paces the progress reports and checks the digest before the file is installed.  The network
//! and the files are the caller's part.
use vstd::prelude::*;
use crate::chars::{to_chars, from_chars, trim, trim_exec, chars_eq, append_chars, append_str};
use crate::remote::{decimal, decimal_exec};

verus! {

/// The installed model is current when no checksum is expected or the saved one matches.
pub open spec fn current(expected: Seq<char>, saved: Seq<char>) -> bool {
    expected.len() == 0 || trim(saved) == expected
}

/// Whether the installed model file is current (see [`current`]): then nothing is downloaded.
pub fn is_current(expected: &str, saved: &str) -> (r: bool)
    ensures
        r == current(expected@, saved@),
{
    let e = to_chars(expected);
    e.len() == 0 || chars_eq(&trim_exec(&to_chars(saved)), &e)
}

/// Whether a model needs updating: a checksum is expected, the file is there, and the saved
/// checksum differs.
pub fn model_outdated(expected: &str, present: bool, saved: &str) -> (r: bool)
    ensures
        r == (expected@.len() > 0 && present && trim(saved@) != expected@),
{
    let e = to_chars(expected);
    e.len() > 0 && present && !chars_eq(&trim_exec(&to_chars(saved)), &e)
}

/// A partial download is resumed only when it belongs to the expected checksum (or no
/// checksum is expected); a partial file of another version is discarded.
pub fn keep_partial(expected: &str, owner: &str) -> (r: bool)
    ensures
        r == current(expected@, owner@),
{
    is_current(expected, owner)
}

/// The `Range` header that resumes after `downloaded` bytes: `bytes=N-`; none for a fresh start.
pub fn range_header(downloaded: u64) -> (r: Option<String>)
    ensures
        downloaded == 0 ==> r is None,
        downloaded > 0 ==> (r matches Some(h) && h@ == "bytes="@ + decimal(downloaded as nat) + "-"@),
{
    if downloaded == 0 {
        return None;
    }
    let mut v = to_chars("bytes=");
    append_chars(&mut v, &decimal_u64(downloaded));
    append_str(&mut v, "-");
    Some(from_chars(v.as_slice()))
}

/// The decimal digits of a 64-bit count.
pub(crate) fn decimal_u64(n: u64) -> (r: Vec<char>)
    ensures
        r@ == decimal(n as nat),
    decreases n,
{
    if n < 10 {
        let c = ((n as u8) + 48) as char;
        let r = vec![c];
        assert(r@ =~= decimal(n as nat));
        r
    } else {
        let mut r = decimal_u64(n / 10);
        let c = (((n % 10) as u8) + 48) as char;
        r.push(c);
        r
    }
}

/// A resumed download restarts from zero when the server ignored the range and sent the whole
/// file (status 200 instead of 206).
pub fn restart_needed(downloaded: u64, status: u16) -> (r: bool)
    ensures
        r == (downloaded > 0 && status == 200),
{
    downloaded > 0 && status == 200
}

/// Progress is reported every 4 MB (and the partial file flushed then).
pub const PROGRESS_STEP: u64 = 4000000;

/// Whether to report progress now.
pub fn progress_due(downloaded: u64, last_reported: u64) -> (r: bool)
    requires
        last_reported <= downloaded,
    ensures
        r == (downloaded - last_reported >= PROGRESS_STEP),
{
    downloaded - last_reported >= PROGRESS_STEP
}

/// A lowercase hexadecimal digit.
pub open spec fn hex_digit(d: nat) -> char {
    if d < 10 {
        ((d + 48) as u32) as char
    } else {
        ((d + 87) as u32) as char
    }
}

/// The lowercase hexadecimal text of some bytes, two digits each (`{:02x}`).
pub open spec fn hex(bytes: Seq<u8>) -> Seq<char>
    decreases bytes.len(),
{
    if bytes.len() == 0 {
        seq![]
    } else {
        hex(bytes.drop_last()) + seq![
            hex_digit((bytes.last() / 16) as nat),
            hex_digit((bytes.last() % 16) as nat),
        ]
    }
}

fn hex_digit_exec(d: u8) -> (c: char)
    requires
        d < 16,
    ensures
        c == hex_digit(d as nat),
{
    if d < 10 {
        (d + 48) as char
    } else {
        (d + 87) as char
    }
}

/// The lowercase hexadecimal text of a digest (see [`hex`]).
pub fn hex_digest(bytes: &[u8]) -> (r: String)
    ensures
        r@ == hex(bytes@),
{
    let mut v: Vec<char> = Vec::new();
    let mut k: usize = 0;
    while k < bytes.len()
        invariant
            k <= bytes.len(),
            v@ == hex(bytes@.take(k as int)),
        decreases bytes.len() - k,
    {
        proof {
            assert(bytes@.take(k + 1).drop_last() =~= bytes@.take(k as int));
            assert(bytes@.take(k + 1).last() == bytes@[k as int]);
        }
        let b = bytes[k];
        v.push(hex_digit_exec(b / 16));
        v.push(hex_digit_exec(b % 16));
        k = k + 1;
        assert(v@ =~= hex(bytes@.take(k as int)));
    }
    assert(bytes@.take(bytes.len() as int) =~= bytes@);
    from_chars(v.as_slice())
}

/// A download whose digest differs from the expected checksum (when there is one) is refused,
/// and the error quotes both values.
pub open spec fn checksum_refusal(expected: Seq<char>, got: Seq<char>) -> Option<Seq<char>> {
    if expected.len() > 0 && got != expected {
        Some("checksum non valido: atteso "@ + expected + ", ottenuto "@ + got)
    } else {
        None
    }
}

/// Checks the downloaded file's digest (see [`checksum_refusal`]); `Some` is the error.
pub fn checksum_error(expected: &str, got: &str) -> (r: Option<String>)
    ensures
        r matches Some(e) ==> checksum_refusal(expected@, got@) == Some(e@),
        r is None ==> checksum_refusal(expected@, got@) is None,
{
    let e = to_chars(expected);
    let g = to_chars(got);
    if e.len() > 0 && !chars_eq(&g, &e) {
        let mut v = to_chars("checksum non valido: atteso ");
        append_chars(&mut v, &e);
        append_str(&mut v, ", ottenuto ");
        append_chars(&mut v, &g);
        let r = from_chars(v.as_slice());
        assert(r@ =~= checksum_refusal(expected@, got@)->0);
        Some(r)
    } else {
        None
    }
}

// ---------------------------------------------------------------- hashing

#[verifier::external_type_specification]
#[verifier::external_body]
pub struct ExDigestContext(ring::digest::Context);

/// The bytes a SHA-256 context has taken in so far.
pub uninterp spec fn hashed(c: ring::digest::Context) -> Seq<u8>;

/// The SHA-256 digest of some bytes.
pub uninterp spec fn sha256_of(data: Seq<u8>) -> Seq<u8>;

/// `ring::digest::Context::new(&SHA256)`: a context that has taken in nothing.
#[verifier::external_body]
fn sha256_context() -> (r: ring::digest::Context)
    ensures
        hashed(r) == Seq::<u8>::empty(),
{
    ring::digest::Context::new(&ring::digest::SHA256)
}

/// `Context::update`: the context takes in `data` after what it had.
#[verifier::external_body]
fn sha256_update(c: &mut ring::digest::Context, data: &[u8])
    ensures
        hashed(*final(c)) == hashed(*old(c)) + data@,
{
    c.update(data)
}

/// `Context::finish`: the digest of everything taken in.  It panics when the bit length of the
/// input does not fit in 64 bits, which the precondition leaves out.
#[verifier::external_body]
fn sha256_finish(c: ring::digest::Context) -> (r: Vec<u8>)
    requires
        hashed(c).len() < HASH_LIMIT,
    ensures
        r@ == sha256_of(hashed(c)),
{
    c.finish().as_ref().to_vec()
}

/// The largest input SHA-256 takes is below this many bytes (its bit length must fit 64 bits).
pub const HASH_LIMIT: u64 = 0x2000_0000_0000_0000;

// ---------------------------------------------------------------- the transfer

/// What the caller must do next.
pub enum TransferAction {
    /// Read the next piece of the partial file already on disk: answer `PartChunk`, or
    /// `PartEnd` at its end (or when there is none).
    ReadPart,
    /// Request the file, with this `Range` header when resuming: answer `Response`.
    Request { range: Option<String> },
    /// Append the response body to the partial file, after removing it when `restart`: read a
    /// piece, write it and answer `Chunk`; `End` at the body's end; `Cancelled` when the user
    /// cancelled.
    Receive { restart: bool },
    /// Go on receiving; when `progress` is given, flush the file and report that count first.
    Continue { progress: Option<u64> },
    /// The digest matches: rename the partial file into place, save the checksum (when there is
    /// one) and report the download done.
    Install,
    /// End with this error, removing the partial file first when `remove_part` (otherwise it
    /// stays, to be resumed).
    Fail { message: String, remove_part: bool },
    /// The event does not fit the current step; nothing changed.
    Unexpected,
}

/// What the caller reports back.
pub enum TransferEvent {
    /// A piece of the partial file on disk.
    PartChunk(Vec<u8>),
    /// The end of the partial file.
    PartEnd,
    /// The server's status, or the request's error.
    Response(Result<u16, String>),
    /// A piece of the body, already written to the partial file.
    Chunk(Vec<u8>),
    /// The body has ended.
    End,
    /// The user cancelled.
    Cancelled,
}

/// Where the transfer stands.
#[derive(PartialEq, Eq, Structural, Clone, Copy)]
pub enum TransferPhase {
    Resuming,
    AwaitResponse,
    Receiving,
    Finished,
}

/// The mathematical form of a transfer: the bytes of the partial file (all hashed), the count
/// at the last progress report, the expected checksum, the phase.
pub struct Tr {
    pub data: Seq<u8>,
    pub reported: nat,
    pub expected: Seq<char>,
    pub phase: TransferPhase,
}

/// The mathematical form of a [`TransferAction`].
pub enum TAct {
    ReadPart,
    Request(Option<Seq<char>>),
    Receive(bool),
    Continue(Option<nat>),
    Install,
    Fail(Seq<char>, bool),
    Unexpected,
}

/// The mathematical form of a [`TransferEvent`].
pub enum TEv {
    PartChunk(Seq<u8>),
    PartEnd,
    Response(Result<u16, Seq<char>>),
    Chunk(Seq<u8>),
    End,
    Cancelled,
}

pub open spec fn tevent_view(e: TransferEvent) -> TEv {
    match e {
        TransferEvent::PartChunk(b) => TEv::PartChunk(b@),
        TransferEvent::PartEnd => TEv::PartEnd,
        TransferEvent::Response(r) => TEv::Response(
            match r {
                Ok(s) => Ok(s),
                Err(m) => Err(m@),
            },
        ),
        TransferEvent::Chunk(b) => TEv::Chunk(b@),
        TransferEvent::End => TEv::End,
        TransferEvent::Cancelled => TEv::Cancelled,
    }
}

/// Whether an action reads as `a`.
pub open spec fn taction_is(x: TransferAction, a: TAct) -> bool {
    match (x, a) {
        (TransferAction::ReadPart, TAct::ReadPart) => true,
        (TransferAction::Request { range }, TAct::Request(r)) => match (range, r) {
            (Some(h), Some(g)) => h@ == g,
            (None, None) => true,
            _ => false,
        },
        (TransferAction::Receive { restart }, TAct::Receive(r)) => restart == r,
        (TransferAction::Continue { progress }, TAct::Continue(p)) => match (progress, p) {
            (Some(n), Some(m)) => n as nat == m,
            (None, None) => true,
            _ => false,
        },
        (TransferAction::Install, TAct::Install) => true,
        (TransferAction::Fail { message, remove_part }, TAct::Fail(m, r)) => message@ == m && remove_part == r,
        (TransferAction::Unexpected, TAct::Unexpected) => true,
        _ => false,
    }
}

/// The `Range` header that resumes after `n` bytes (see [`range_header`]).
pub open spec fn range_for(n: nat) -> Option<Seq<char>> {
    if n == 0 {
        None
    } else {
        Some("bytes="@ + decimal(n) + "-"@)
    }
}

/// The verdict on the finished file: its digest against the expected checksum.
pub open spec fn verdict(t: Tr) -> TAct {
    match checksum_refusal(t.expected, hex(sha256_of(t.data))) {
        Some(m) => TAct::Fail(m, true),
        None => TAct::Install,
    }
}

/// One step of the transfer: the next state and what to do.
pub open spec fn transfer_step(t: Tr, e: TEv) -> (Tr, TAct) {
    match (t.phase, e) {
        (TransferPhase::Resuming, TEv::PartChunk(b)) => (Tr { data: t.data + b, ..t }, TAct::ReadPart),
        (TransferPhase::Resuming, TEv::PartEnd) => (
            Tr { phase: TransferPhase::AwaitResponse, ..t },
            TAct::Request(range_for(t.data.len())),
        ),
        (TransferPhase::AwaitResponse, TEv::Response(Err(m))) => (
            Tr { phase: TransferPhase::Finished, ..t },
            TAct::Fail("download non riuscito: "@ + m + " — riprova"@, t.data.len() > 0),
        ),
        (TransferPhase::AwaitResponse, TEv::Response(Ok(status))) => if t.data.len() > 0 && status
            == 200 {
            (
                Tr { data: seq![], reported: 0, phase: TransferPhase::Receiving, ..t },
                TAct::Receive(true),
            )
        } else {
            (Tr { reported: t.data.len(), phase: TransferPhase::Receiving, ..t }, TAct::Receive(false))
        },
        (TransferPhase::Receiving, TEv::Chunk(b)) => {
            let data = t.data + b;
            if data.len() - t.reported >= PROGRESS_STEP {
                (Tr { data, reported: data.len(), ..t }, TAct::Continue(Some(data.len())))
            } else {
                (Tr { data, ..t }, TAct::Continue(None))
            }
        },
        (TransferPhase::Receiving, TEv::Cancelled) => (
            Tr { phase: TransferPhase::Finished, ..t },
            TAct::Fail("annullato"@, false),
        ),
        (TransferPhase::Receiving, TEv::End) => (Tr { phase: TransferPhase::Finished, ..t }, verdict(t)),
        _ => (t, TAct::Unexpected),
    }
}

/// Whether the transfer can take `n` more bytes: SHA-256 takes less than [`HASH_LIMIT`] bytes.
pub open spec fn room_for(t: Tr, n: nat) -> bool {
    t.data.len() + n < HASH_LIMIT
}

/// Whether an event fits the bound on the data (see [`room_for`]).
pub open spec fn event_fits(t: Tr, e: TEv) -> bool {
    match e {
        TEv::PartChunk(b) => room_for(t, b.len()),
        TEv::Chunk(b) => room_for(t, b.len()),
        _ => true,
    }
}

/// The transfer's invariant: the count at the last report never passes the data, which stays
/// within what SHA-256 takes.
pub open spec fn transfer_wf(t: Tr) -> bool {
    t.reported <= t.data.len() && t.data.len() < HASH_LIMIT
}

/// A model download in progress.
pub struct Transfer {
    ctx: ring::digest::Context,
    data: Ghost<Seq<u8>>,
    downloaded: u64,
    reported: u64,
    expected: String,
    phase: TransferPhase,
}

impl View for Transfer {
    type V = Tr;

    closed spec fn view(&self) -> Tr {
        Tr { data: self.data@, reported: self.reported as nat, expected: self.expected@, phase: self.phase }
    }
}

impl Transfer {
    /// Whether this transfer is well formed: its counters agree with the bytes it took in, which
    /// its hashing context holds until the end.
    pub closed spec fn wf(&self) -> bool {
        &&& self.downloaded as nat == self.data@.len()
        &&& transfer_wf(self@)
        &&& self.phase != TransferPhase::Finished ==> hashed(self.ctx) == self.data@
    }

    /// A transfer for a file with this expected checksum (empty: none); it starts by reading the
    /// partial file already on disk.
    pub fn new(expected: &str) -> (r: Self)
        ensures
            r.wf(),
            r@ == (Tr { data: seq![], reported: 0, expected: expected@, phase: TransferPhase::Resuming }),
    {
        Transfer {
            ctx: sha256_context(),
            data: Ghost(Seq::<u8>::empty()),
            downloaded: 0,
            reported: 0,
            expected: from_chars(to_chars(expected).as_slice()),
            phase: TransferPhase::Resuming,
        }
    }

    /// How many bytes the partial file holds so far.
    pub fn downloaded(&self) -> (r: u64)
        requires
            self.wf(),
        ensures
            r as nat == self@.data.len(),
    {
        self.downloaded
    }

    /// Whether `n` more bytes can be taken (see [`room_for`]).
    pub fn has_room(&self, n: usize) -> (r: bool)
        requires
            self.wf(),
        ensures
            r == room_for(self@, n as nat),
    {
        (n as u128) + (self.downloaded as u128) < (HASH_LIMIT as u128)
    }

    fn take_in(&mut self, b: &Vec<u8>)
        requires
            old(self).wf(),
            old(self).phase != TransferPhase::Finished,
            room_for(old(self)@, b@.len()),
        ensures
            final(self).downloaded as nat == final(self).data@.len(),
            final(self).data@ == old(self).data@ + b@,
            hashed(final(self).ctx) == final(self).data@,
            final(self).reported == old(self).reported,
            final(self).expected == old(self).expected,
            final(self).phase == old(self).phase,
    {
        sha256_update(&mut self.ctx, b.as_slice());
        self.data = Ghost(self.data@ + b@);
        self.downloaded = self.downloaded + (b.len() as u64);
    }

    /// One transition (see [`transfer_step`]).
    pub fn step(&mut self, event: TransferEvent) -> (act: TransferAction)
        requires
            old(self).wf(),
            event_fits(old(self)@, tevent_view(event)),
        ensures
            final(self).wf(),
            final(self)@ == transfer_step(old(self)@, tevent_view(event)).0,
            taction_is(act, transfer_step(old(self)@, tevent_view(event)).1),
    {
        match (self.phase, event) {
            (TransferPhase::Resuming, TransferEvent::PartChunk(b)) => {
                self.take_in(&b);
                TransferAction::ReadPart
            },
            (TransferPhase::Resuming, TransferEvent::PartEnd) => {
                self.phase = TransferPhase::AwaitResponse;
                TransferAction::Request { range: range_header(self.downloaded) }
            },
            (TransferPhase::AwaitResponse, TransferEvent::Response(Err(m))) => {
                self.phase = TransferPhase::Finished;
                let mut v = to_chars("download non riuscito: ");
                append_str(&mut v, m.as_str());
                append_str(&mut v, " — riprova");
                TransferAction::Fail { message: from_chars(v.as_slice()), remove_part: self.downloaded > 0 }
            },
            (TransferPhase::AwaitResponse, TransferEvent::Response(Ok(status))) => {
                self.phase = TransferPhase::Receiving;
                if restart_needed(self.downloaded, status) {
                    self.ctx = sha256_context();
                    self.data = Ghost(Seq::<u8>::empty());
                    self.downloaded = 0;
                    self.reported = 0;
                    TransferAction::Receive { restart: true }
                } else {
                    self.reported = self.downloaded;
                    TransferAction::Receive { restart: false }
                }
            },
            (TransferPhase::Receiving, TransferEvent::Chunk(b)) => {
                self.take_in(&b);
                if progress_due(self.downloaded, self.reported) {
                    self.reported = self.downloaded;
                    TransferAction::Continue { progress: Some(self.downloaded) }
                } else {
                    TransferAction::Continue { progress: None }
                }
            },
            (TransferPhase::Receiving, TransferEvent::Cancelled) => {
                self.phase = TransferPhase::Finished;
                TransferAction::Fail { message: from_chars(to_chars("annullato").as_slice()), remove_part: false }
            },
            (TransferPhase::Receiving, TransferEvent::End) => {
                self.phase = TransferPhase::Finished;
                let mut done = sha256_context();
                std::mem::swap(&mut done, &mut self.ctx);
                let digest = sha256_finish(done);
                match checksum_error(self.expected.as_str(), hex_digest(digest.as_slice()).as_str()) {
                    Some(message) => TransferAction::Fail { message, remove_part: true },
                    None => TransferAction::Install,
                }
            },
            _ => TransferAction::Unexpected,
        }
    }
}

/// A file is installed only at the end of the body, and only when no checksum is expected or
/// the digest of every byte of the partial file matches it.
pub proof fn lemma_install_only_when_verified(t: Tr, e: TEv)
    requires
        transfer_step(t, e).1 == TAct::Install,
    ensures
        t.phase == TransferPhase::Receiving,
        e == TEv::End,
        t.expected.len() == 0 || hex(sha256_of(t.data)) == t.expected,
{
}

/// The hashed bytes are those of the partial file: a step keeps them, appends exactly the piece
/// it was given, or (on a restart, when the server ignored the range) drops them all.
pub proof fn lemma_hashed_bytes_follow_the_file(t: Tr, e: TEv)
    ensures
        ({
            let n = transfer_step(t, e).0;
            ||| n.data == t.data
            ||| (e matches TEv::PartChunk(b) && n.data == t.data + b)
            ||| (e matches TEv::Chunk(b) && n.data == t.data + b)
            ||| (transfer_step(t, e).1 == TAct::Receive(true) && n.data.len() == 0)
        }),
{
}

/// A restart happens only when resumed bytes were there and the server sent the whole file
/// (status 200); it starts over from nothing.
pub proof fn lemma_restart_only_when_range_ignored(t: Tr, e: TEv)
    requires
        transfer_step(t, e).1 == TAct::Receive(true),
    ensures
        t.data.len() > 0,
        e == TEv::Response(Ok(200u16)),
        transfer_step(t, e).0.data.len() == 0,
{
}

/// Progress is reported only after at least 4 MB more, with the current count; the report mark
/// never passes the data.
pub proof fn lemma_progress_is_paced(t: Tr, e: TEv, n: nat)
    requires
        transfer_wf(t),
        event_fits(t, e),
        transfer_step(t, e).1 == TAct::Continue(Some(n)),
    ensures
        n == transfer_step(t, e).0.data.len(),
        n - t.reported >= PROGRESS_STEP,
        transfer_wf(transfer_step(t, e).0),
{
}

/// A cancelled download keeps its partial file, to be resumed later.
pub proof fn lemma_cancel_keeps_partial(t: Tr)
    requires
        t.phase == TransferPhase::Receiving,
    ensures
        transfer_step(t, TEv::Cancelled).1 == TAct::Fail("annullato"@, false),
{
}

} // verus!
