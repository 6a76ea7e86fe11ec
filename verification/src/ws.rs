//! SSH over WebSocket.
//!
//! The endpoint is only a byte pipe for the SSH stream: the client must request
//! the `ssh` subprotocol, frames are binary only, and there is no second
//! application protocol. Request paths must match the configured listener path
//! exactly; query parameters are never interpreted.

use crate::text;
use std::collections::VecDeque;
use vstd::prelude::*;

verus! {

/// Cap on one outbound message; larger writes are split across messages.
pub const MAX_OUTBOUND_CHUNK: usize = 262144;

/// The status of a refused upgrade.
pub const REFUSED_STATUS: u16 = 400;

// ---------------------------------------------------------------------------
// Upgrade

/// The subprotocol token every client must request.
pub fn subprotocol() -> (r: &'static str)
    ensures
        r@ == "ssh"@,
{
    "ssh"
}

/// The token `ssh`, in any ASCII case.
pub open spec fn is_ssh_token(token: Seq<char>) -> bool {
    &&& token.len() == 3
    &&& (token[0] == 's' || token[0] == 'S')
    &&& (token[1] == 's' || token[1] == 'S')
    &&& (token[2] == 'h' || token[2] == 'H')
}

/// Some comma-separated token of an offer is `ssh`.
pub open spec fn offers_ssh(offered: Seq<char>) -> bool {
    exists|i: int|
        0 <= i < text::split_of(offered, ',').len() && is_ssh_token(
            text::trim_of(#[trigger] text::split_of(offered, ',')[i]),
        )
}

/// Why an upgrade is refused.
#[derive(Debug, Clone, Copy, PartialEq, Eq, Structural)]
pub enum UpgradeRefusal {
    Path,
    Subprotocol,
}

/// The text of a refusal.
pub open spec fn refusal_text(refusal: UpgradeRefusal) -> Seq<char> {
    match refusal {
        UpgradeRefusal::Path => "websocket path does not match the configured listener"@,
        UpgradeRefusal::Subprotocol => "websocket upgrade requires the \"ssh\" subprotocol"@,
    }
}

impl UpgradeRefusal {
    /// The text sent to the client.
    pub fn message(&self) -> (r: &'static str)
        ensures
            r@ == refusal_text(*self),
    {
        match self {
            UpgradeRefusal::Path => "websocket path does not match the configured listener",
            UpgradeRefusal::Subprotocol => "websocket upgrade requires the \"ssh\" subprotocol",
        }
    }
}

/// Whether an upgrade is allowed.
pub open spec fn upgrade_outcome(
    request_path: Seq<char>,
    offered: Option<Seq<char>>,
    expected_path: Seq<char>,
) -> Result<(), UpgradeRefusal> {
    if request_path != expected_path {
        Err(UpgradeRefusal::Path)
    } else {
        match offered {
            Some(offered) => if offers_ssh(offered) {
                Ok(())
            } else {
                Err(UpgradeRefusal::Subprotocol)
            },
            None => Err(UpgradeRefusal::Subprotocol),
        }
    }
}

fn token_is_ssh(token: &[char]) -> (r: bool)
    ensures
        r == is_ssh_token(token@),
{
    token.len() == 3 && (token[0] == 's' || token[0] == 'S') && (token[1] == 's' || token[1]
        == 'S') && (token[2] == 'h' || token[2] == 'H')
}

fn selects_ssh(offered: &str) -> (r: bool)
    ensures
        r == offers_ssh(offered@),
{
    let chars = text::chars_of(offered);
    let tokens = text::split(chars.as_slice(), ',');
    let ghost all = text::split_of(offered@, ',');
    let mut i: usize = 0;
    while i < tokens.len()
        invariant
            i <= tokens@.len(),
            all == text::slices(tokens@),
            all == text::split_of(offered@, ','),
            forall|k: int| 0 <= k < i ==> !is_ssh_token(text::trim_of(#[trigger] all[k])),
        decreases tokens@.len() - i,
    {
        assert(all[i as int] == tokens@[i as int]@);
        if token_is_ssh(text::trim(tokens[i])) {
            assert(is_ssh_token(text::trim_of(text::split_of(offered@, ',')[i as int])));
            return true;
        }
        i = i + 1;
    }
    false
}

/// Check the request path and the offered subprotocols.
pub fn validate_upgrade(request_path: &str, offered: Option<&str>, expected_path: &str) -> (r:
    Result<(), UpgradeRefusal>)
    ensures
        r == upgrade_outcome(
            request_path@,
            (match offered {
                Some(offered) => Some(offered@),
                None => None,
            }),
            expected_path@,
        ),
{
    if !text::same_text(request_path, expected_path) {
        return Err(UpgradeRefusal::Path);
    }
    match offered {
        None => Err(UpgradeRefusal::Subprotocol),
        Some(offered) => {
            if selects_ssh(offered) {
                Ok(())
            } else {
                Err(UpgradeRefusal::Subprotocol)
            }
        },
    }
}

// ---------------------------------------------------------------------------
// Inbound bytes

/// The reference-counted byte buffer that a frame's payload arrives in.
#[verifier::external_type_specification]
#[verifier::external_body]
pub struct ExBytes(bytes::Bytes);

/// The bytes that a buffer holds.
pub uninterp spec fn payload(buffer: bytes::Bytes) -> Seq<u8>;

/// `Bytes` as a slice (its `AsRef<[u8]>`): all of its bytes.
#[verifier::external_body]
fn payload_bytes(buffer: &bytes::Bytes) -> (r: &[u8])
    ensures
        r@ == payload(*buffer),
{
    buffer.as_ref()
}

/// `Bytes::slice` from a position to the end: the bytes behind that position,
/// in a view of the same allocation. It panics beyond the end.
#[verifier::external_body]
fn payload_from(buffer: &bytes::Bytes, start: usize) -> (r: bytes::Bytes)
    requires
        start <= payload(*buffer).len(),
    ensures
        payload(r) == payload(*buffer).skip(start as int),
{
    buffer.slice(start..)
}

/// What the connection delivered.
#[derive(Debug)]
pub enum Inbound {
    /// Nothing yet.
    Pending,
    /// The connection is gone.
    Gone,
    /// The connection failed.
    Failed { source: String },
    Binary(bytes::Bytes),
    Text,
    Close,
    /// A control frame, handled by the protocol layer below.
    Control,
}

/// What a read does next.
#[derive(Debug)]
pub enum ReadStep {
    /// Look again: bytes may be waiting now.
    Again,
    Wait,
    EndOfStream,
    Fail { message: String },
}

/// The contents of a [`ReadStep`].
pub enum StepView {
    Again,
    Wait,
    EndOfStream,
    Fail { message: Seq<char> },
}

impl View for ReadStep {
    type V = StepView;

    open spec fn view(&self) -> StepView {
        match self {
            ReadStep::Again => StepView::Again,
            ReadStep::Wait => StepView::Wait,
            ReadStep::EndOfStream => StepView::EndOfStream,
            ReadStep::Fail { message } => StepView::Fail { message: message@ },
        }
    }
}

/// What a read does after a delivery.
pub open spec fn step_of(inbound: Inbound) -> StepView {
    match inbound {
        Inbound::Pending => StepView::Wait,
        Inbound::Gone => StepView::EndOfStream,
        Inbound::Failed { source } => StepView::Fail { message: source@ },
        Inbound::Binary(_) => StepView::Again,
        Inbound::Text => StepView::Fail {
            message: "websocket text frames are not part of the SSH transport"@,
        },
        Inbound::Close => StepView::EndOfStream,
        Inbound::Control => StepView::Again,
    }
}

/// The bytes of a delivery.
pub open spec fn bytes_of(inbound: Inbound) -> Seq<u8> {
    match inbound {
        Inbound::Binary(arrived) => payload(arrived),
        _ => seq![],
    }
}

/// Payloads queued in arrival order; the front one may be the rest of a
/// payload.
#[derive(Debug)]
pub struct InboundQueue {
    payloads: VecDeque<bytes::Bytes>,
}

/// The bytes of a list of payloads.
pub open spec fn joined(payloads: Seq<Seq<u8>>) -> Seq<u8>
    decreases payloads.len(),
{
    if payloads.len() == 0 {
        seq![]
    } else {
        joined(payloads.drop_last()) + payloads.last()
    }
}

/// The payloads after a delivery. Empty ones are skipped.
pub open spec fn queued(payloads: Seq<Seq<u8>>, arrived: Seq<u8>) -> Seq<Seq<u8>> {
    if arrived.len() == 0 {
        payloads
    } else {
        payloads.push(arrived)
    }
}

/// The bytes that a read takes: from the front payload, as many as there is room
/// for.
pub open spec fn taken(payloads: Seq<Seq<u8>>, room: nat) -> Seq<u8> {
    if payloads.len() == 0 {
        seq![]
    } else if payloads[0].len() <= room {
        payloads[0]
    } else {
        payloads[0].take(room as int)
    }
}

/// The payloads after a read.
pub open spec fn left_over(payloads: Seq<Seq<u8>>, room: nat) -> Seq<Seq<u8>> {
    if payloads.len() == 0 {
        payloads
    } else if payloads[0].len() <= room {
        payloads.skip(1)
    } else {
        payloads.update(0, payloads[0].skip(room as int))
    }
}

proof fn lemma_joined_first(payloads: Seq<Seq<u8>>)
    requires
        payloads.len() > 0,
    ensures
        joined(payloads) == payloads[0] + joined(payloads.skip(1)),
    decreases payloads.len(),
{
    if payloads.len() == 1 {
        assert(payloads.drop_last() =~= Seq::<Seq<u8>>::empty());
        assert(payloads.skip(1) =~= Seq::<Seq<u8>>::empty());
        assert(joined(payloads) =~= payloads[0] + joined(payloads.skip(1)));
    } else {
        let short = payloads.drop_last();
        lemma_joined_first(short);
        assert(payloads.skip(1).drop_last() =~= short.skip(1));
        assert(payloads.skip(1).last() == payloads.last());
        assert(joined(payloads) =~= payloads[0] + joined(payloads.skip(1)));
    }
}

/// A delivery adds its bytes behind everything that waits.
pub proof fn deliveries_come_last(payloads: Seq<Seq<u8>>, arrived: Seq<u8>)
    ensures
        joined(queued(payloads, arrived)) == joined(payloads) + arrived,
{
    if arrived.len() == 0 {
        assert(joined(payloads) + arrived =~= joined(payloads));
    } else {
        assert(payloads.push(arrived).drop_last() =~= payloads);
    }
}

/// Reads take the bytes in the order they came in, and lose none.
pub proof fn reads_keep_the_order(payloads: Seq<Seq<u8>>, room: nat)
    ensures
        taken(payloads, room) + joined(left_over(payloads, room)) == joined(payloads),
{
    if payloads.len() == 0 {
        assert(taken(payloads, room) + joined(payloads) =~= joined(payloads));
    } else {
        lemma_joined_first(payloads);
        if payloads[0].len() > room {
            let rest = left_over(payloads, room);
            lemma_joined_first(rest);
            assert(rest.skip(1) =~= payloads.skip(1));
            assert(taken(payloads, room) + rest[0] =~= payloads[0]);
            assert(taken(payloads, room) + (rest[0] + joined(rest.skip(1))) =~= (taken(
                payloads,
                room,
            ) + rest[0]) + joined(rest.skip(1)));
        }
    }
}

/// The contents of a list of buffers.
pub open spec fn contents(payloads: Seq<bytes::Bytes>) -> Seq<Seq<u8>> {
    payloads.map_values(|buffer: bytes::Bytes| payload(buffer))
}

impl View for InboundQueue {
    type V = Seq<Seq<u8>>;

    /// The payloads that were received and not read yet; the front one may be
    /// the rest of a payload.
    closed spec fn view(&self) -> Seq<Seq<u8>> {
        contents(self.payloads@)
    }
}

impl InboundQueue {
    /// No payload is empty: a read of zero bytes would look like the end of the
    /// stream.
    #[verifier::type_invariant]
    pub closed spec fn valid(&self) -> bool {
        forall|i: int|
            0 <= i < self.payloads@.len() ==> payload(#[trigger] self.payloads@[i]).len() > 0
    }

    /// A queue without bytes.
    pub fn new() -> (r: InboundQueue)
        ensures
            r@ == Seq::<Seq<u8>>::empty(),
    {
        let r = InboundQueue { payloads: VecDeque::new() };
        assert(r@ =~= Seq::<Seq<u8>>::empty());
        r
    }

    /// Whether bytes are waiting.
    pub fn has_bytes(&self) -> (r: bool)
        ensures
            r == (self@.len() > 0),
            r == (joined(self@).len() > 0),
    {
        proof {
            use_type_invariant(self);
            if self@.len() > 0 {
                lemma_joined_first(self@);
                assert(self@[0] == payload(self.payloads@[0]));
            }
        }
        self.payloads.len() > 0
    }

    /// Take a delivery over, and decide what the read does next. Empty payloads
    /// are skipped.
    pub fn deliver(&mut self, inbound: Inbound) -> (r: ReadStep)
        ensures
            r@ == step_of(inbound),
            final(self)@ == queued(old(self)@, bytes_of(inbound)),
    {
        proof {
            use_type_invariant(&*self);
        }
        match inbound {
            Inbound::Pending => ReadStep::Wait,
            Inbound::Gone => ReadStep::EndOfStream,
            Inbound::Failed { source } => ReadStep::Fail { message: source },
            Inbound::Text => ReadStep::Fail {
                message: String::from_str(
                    "websocket text frames are not part of the SSH transport",
                ),
            },
            Inbound::Close => ReadStep::EndOfStream,
            Inbound::Control => ReadStep::Again,
            Inbound::Binary(arrived) => {
                if payload_bytes(&arrived).len() > 0 {
                    let ghost before = self.payloads@;
                    let mut payloads: VecDeque<bytes::Bytes> = VecDeque::new();
                    std::mem::swap(&mut payloads, &mut self.payloads);
                    payloads.push_back(arrived);
                    proof {
                        let after = before.push(arrived);
                        assert(payloads@ == after);
                        assert(contents(after) =~= contents(before).push(payload(arrived)));
                        assert forall|i: int| 0 <= i < after.len() implies payload(
                            #[trigger] after[i],
                        ).len() > 0 by {
                            if i < before.len() {
                                assert(after[i] == before[i]);
                            }
                        }
                    }
                    *self = InboundQueue { payloads };
                }
                ReadStep::Again
            },
        }
    }

    /// Read from the front payload as much as there is room for. With room, a
    /// queue that has bytes never reads none.
    pub fn read(&mut self, room: usize) -> (r: Vec<u8>)
        ensures
            r@ == taken(old(self)@, room as nat),
            final(self)@ == left_over(old(self)@, room as nat),
            room > 0 && old(self)@.len() > 0 ==> r@.len() > 0,
    {
        proof {
            use_type_invariant(&*self);
        }
        let ghost before = self.payloads@;
        let mut out: Vec<u8> = Vec::new();
        let mut payloads: VecDeque<bytes::Bytes> = VecDeque::new();
        std::mem::swap(&mut payloads, &mut self.payloads);
        match payloads.pop_front() {
            None => {
                assert(self@ =~= contents(before));
                assert(out@ =~= Seq::<u8>::empty());
            },
            Some(front) => {
                proof {
                    assert(before.skip(1) =~= payloads@);
                    assert(contents(before)[0] == payload(front));
                }
                let ghost rest = payloads@;
                let all = payload_bytes(&front);
                let left: usize = all.len();
                let copy: usize = if left < room {
                    left
                } else {
                    room
                };
                let mut i: usize = 0;
                while i < copy
                    invariant
                        i <= copy <= all@.len(),
                        out@ == all@.take(i as int),
                    decreases copy - i,
                {
                    out.push(all[i]);
                    i = i + 1;
                }
                if copy < left {
                    let remainder = payload_from(&front, copy);
                    payloads.push_front(remainder);
                    proof {
                        let after = payloads@;
                        assert(after =~= seq![remainder] + rest);
                        assert(contents(after) =~= left_over(contents(before), room as nat));
                    }
                } else {
                    assert(out@ =~= payload(front));
                    assert(contents(payloads@) =~= left_over(contents(before), room as nat));
                }
                proof {
                    let after = payloads@;
                    assert forall|k: int| 0 <= k < after.len() implies payload(
                        #[trigger] after[k],
                    ).len() > 0 by {
                        if copy < left {
                            if k > 0 {
                                assert(after[k] == rest[k - 1]);
                                assert(rest[k - 1] == before[k]);
                            }
                        } else {
                            assert(after[k] == before[k + 1]);
                        }
                    }
                }
                *self = InboundQueue { payloads };
            },
        }
        out
    }
}

// ---------------------------------------------------------------------------
// Outbound bytes

/// How many bytes of a write go into one message.
pub open spec fn chunk_of(length: nat) -> nat {
    if length < MAX_OUTBOUND_CHUNK {
        length
    } else {
        MAX_OUTBOUND_CHUNK as nat
    }
}

/// How many bytes of a write go into one message.
pub fn outbound_chunk(length: usize) -> (r: usize)
    ensures
        r == chunk_of(length as nat),
{
    if length < MAX_OUTBOUND_CHUNK {
        length
    } else {
        MAX_OUTBOUND_CHUNK
    }
}

/// A write that has bytes always sends some, and never more than one message
/// may hold.
pub proof fn writes_make_progress(length: nat)
    ensures
        chunk_of(length) <= length,
        chunk_of(length) <= MAX_OUTBOUND_CHUNK,
        length > 0 ==> chunk_of(length) > 0,
{
}

/// An upgrade is allowed only on the configured path and with the `ssh`
/// subprotocol.
pub proof fn accepted_upgrades_select_ssh(
    request_path: Seq<char>,
    offered: Option<Seq<char>>,
    expected_path: Seq<char>,
)
    requires
        upgrade_outcome(request_path, offered, expected_path) is Ok,
    ensures
        request_path == expected_path,
        offered matches Some(tokens) && offers_ssh(tokens),
{
}

/// An upgrade is accepted exactly for the path of the listener and an offer that
/// holds the subprotocol; the path is looked at first.
pub proof fn upgrades_need_path_and_subprotocol(
    request_path: Seq<char>,
    offered: Option<Seq<char>>,
    expected_path: Seq<char>,
)
    ensures
        upgrade_outcome(request_path, offered, expected_path) is Ok <==> request_path
            == expected_path && (offered matches Some(tokens) && offers_ssh(tokens)),
        upgrade_outcome(request_path, offered, expected_path) == Err::<(), UpgradeRefusal>(
            UpgradeRefusal::Path,
        ) <==> request_path != expected_path,
{
}

/// An offer is a list with commas: it holds the subprotocol exactly when one of
/// its parts does, and a part does whatever the white space around it and the
/// case of its letters.
pub proof fn offers_are_lists(left: Seq<char>, right: Seq<char>, before: Seq<char>, after: Seq<char>)
    requires
        forall|k: int| 0 <= k < before.len() ==> text::is_white(#[trigger] before[k]),
        forall|k: int| 0 <= k < after.len() ==> text::is_white(#[trigger] after[k]),
    ensures
        offers_ssh(left + seq![','] + right) <==> offers_ssh(left) || offers_ssh(right),
        offers_ssh(before + seq!['s', 's', 'h'] + after),
        offers_ssh(before + seq!['S', 'S', 'H'] + after),
        !offers_ssh(before + after),
{
    text::separators_split_parts(left, ',', right);
    let all = text::split_of(left + seq![','] + right, ',');
    let a = text::split_of(left, ',');
    let b = text::split_of(right, ',');
    if offers_ssh(left) {
        let i = choose|i: int| 0 <= i < a.len() && is_ssh_token(text::trim_of(#[trigger] a[i]));
        assert(all[i] == a[i]);
    }
    if offers_ssh(right) {
        let i = choose|i: int| 0 <= i < b.len() && is_ssh_token(text::trim_of(#[trigger] b[i]));
        assert(all[a.len() + i] == b[i]);
    }
    if offers_ssh(left + seq![','] + right) {
        let i = choose|i: int| 0 <= i < all.len() && is_ssh_token(text::trim_of(#[trigger] all[i]));
        if i < a.len() {
            assert(a[i] == all[i]);
        } else {
            assert(b[i - a.len()] == all[i]);
        }
    }
    lemma_padded_token(before, seq!['s', 's', 'h'], after);
    lemma_padded_token(before, seq!['S', 'S', 'H'], after);
    let none = Seq::<char>::empty();
    lemma_padded_token(before, none, after);
    assert(before + none + after =~= before + after);
}

proof fn lemma_not_white(c: char)
    ensures
        c == 's' || c == 'S' || c == 'h' || c == 'H' ==> !text::is_white(c) && c != ',',
        c == ',' ==> !text::is_white(c),
{
}

proof fn lemma_padded_token(before: Seq<char>, token: Seq<char>, after: Seq<char>)
    requires
        forall|k: int| 0 <= k < before.len() ==> text::is_white(#[trigger] before[k]),
        forall|k: int| 0 <= k < after.len() ==> text::is_white(#[trigger] after[k]),
        token.len() == 0 || is_ssh_token(token),
    ensures
        offers_ssh(before + token + after) <==> is_ssh_token(token),
{
    let s = before + token + after;
    if token.len() > 0 {
        lemma_not_white(token[0]);
        lemma_not_white(token[1]);
        lemma_not_white(token[2]);
    }
    assert forall|k: int| 0 <= k < s.len() implies s[k] != ',' by {
        lemma_not_white(s[k]);
        if k < before.len() {
            assert(s[k] == before[k]);
        } else if k < before.len() + token.len() {
            assert(s[k] == token[k - before.len()]);
        } else {
            assert(s[k] == after[k - before.len() - token.len()]);
        }
    }
    text::separators_split_parts(s, ',', s);
    text::trimming_keeps_the_middle(before, token, after);
    assert(text::split_of(s, ',')[0] == s);
}

/// A read takes from the first payload alone, as much as there is room for, and
/// drops a payload once it is read out.
pub proof fn reads_take_what_fits(payloads: Seq<Seq<u8>>, room: nat)
    ensures
        taken(payloads, room).len() <= room,
        payloads.len() > 0 ==> taken(payloads, room).is_prefix_of(payloads[0]),
        payloads.len() > 0 && payloads[0].len() <= room ==> taken(payloads, room) == payloads[0]
            && left_over(payloads, room).len() == payloads.len() - 1,
        payloads.len() > 0 && payloads[0].len() > room ==> taken(payloads, room).len() == room
            && left_over(payloads, room).len() == payloads.len(),
        payloads.len() == 0 ==> taken(payloads, room).len() == 0,
{
    if payloads.len() > 0 {
        let first = payloads[0];
        assert(first.subrange(0, taken(payloads, room).len() as int) =~= taken(payloads, room));
    }
}

/// What arrives decides what happens next: the stream ends when the peer closes
/// or is gone, fails on a failure and on text, waits while nothing is there, and
/// reads on after anything else; only binary frames carry bytes.
pub proof fn frames_decide_the_next_step(inbound: Inbound)
    ensures
        step_of(inbound) is EndOfStream <==> inbound is Gone || inbound is Close,
        step_of(inbound) is Fail <==> inbound is Failed || inbound is Text,
        step_of(inbound) is Wait <==> inbound is Pending,
        step_of(inbound) is Again <==> inbound is Binary || inbound is Control,
        inbound matches Inbound::Failed { source } ==> step_of(inbound) == (StepView::Fail {
            message: source@,
        }),
        !(inbound is Binary) ==> bytes_of(inbound).len() == 0,
        inbound matches Inbound::Binary(arrived) ==> bytes_of(inbound) == payload(arrived),
{
}

/// A write is cut at 256 KiB and nowhere else.
pub proof fn writes_are_cut_at_the_limit(length: nat)
    ensures
        length <= 262144 ==> chunk_of(length) == length,
        length >= 262144 ==> chunk_of(length) == 262144,
{
}

/// What is delivered is read back in the order it came, whatever room the reads
/// have: a delivery and a read give the bytes that were there and those that
/// came, in that order.
pub proof fn delivered_bytes_are_read_in_order(
    queue: &mut InboundQueue,
    inbound: Inbound,
    step: ReadStep,
    later: &mut InboundQueue,
    room: usize,
    r: Vec<u8>,
)
    requires
        call_ensures(InboundQueue::deliver, (queue, inbound), step),
        call_ensures(InboundQueue::read, (later, room), r),
        final(queue)@ == old(later)@,
    ensures
        r@ + joined(final(later)@) == joined(old(queue)@) + bytes_of(inbound),
        r@.len() <= room,
        step@ == step_of(inbound),
{
    deliveries_come_last(old(queue)@, bytes_of(inbound));
    reads_keep_the_order(old(later)@, room as nat);
    reads_take_what_fits(old(later)@, room as nat);
}

} // verus!
