//! Ancillary data: descriptors in control messages, as 64-bit Linux lays them
//! out.

use crate::broker::error::BrokerError;
use crate::broker::words;
use vstd::prelude::*;

verus! {

/// The length of a control message header: an 8-byte length, a level, and a
/// type.
pub const HEADER_LEN: usize = 16;

/// The bytes of one descriptor.
pub const DESCRIPTOR_LEN: usize = 4;

/// The socket level.
pub const SOL_SOCKET: u32 = 1;

/// The type of descriptor messages.
pub const SCM_RIGHTS: u32 = 1;

/// The bytes missing to the next 8-byte boundary.
pub open spec fn padding(n: int) -> int {
    (8 - n % 8) % 8
}

/// A length rounded up to 8 bytes.
pub open spec fn aligned(n: int) -> int {
    n + padding(n)
}

/// Zero bytes.
pub open spec fn zeros(n: nat) -> Seq<u8> {
    Seq::new(n, |i: int| 0u8)
}

/// The bytes of a list of descriptors.
pub open spec fn descriptor_bytes(fds: Seq<i32>) -> Seq<u8>
    decreases fds.len(),
{
    if fds.len() == 0 {
        seq![]
    } else {
        descriptor_bytes(fds.drop_last()) + words::bytes_of((fds.last() as u32) as nat, 4)
    }
}

/// The control buffer of a list of descriptors: one message that holds them, or
/// an empty header.
pub open spec fn control_bytes(fds: Seq<i32>) -> Seq<u8> {
    if fds.len() == 0 {
        zeros(HEADER_LEN as nat)
    } else {
        words::bytes_of((HEADER_LEN + DESCRIPTOR_LEN * fds.len()) as nat, 8) + words::bytes_of(
            SOL_SOCKET as nat,
            4,
        ) + words::bytes_of(SCM_RIGHTS as nat, 4) + descriptor_bytes(fds) + zeros(
            padding((DESCRIPTOR_LEN * fds.len()) as int) as nat,
        )
    }
}

fn put_zeros(out: &mut Vec<u8>, n: usize)
    ensures
        final(out)@ == old(out)@ + zeros(n as nat),
{
    let ghost start = out@;
    let mut i: usize = 0;
    assert(start + zeros(0) =~= start);
    while i < n
        invariant
            i <= n,
            out@ == start + zeros(i as nat),
        decreases n - i,
    {
        assert((start + zeros(i as nat)).push(0u8) =~= start + zeros((i + 1) as nat));
        out.push(0);
        i = i + 1;
    }
}

/// Write the control buffer of a list of descriptors.
pub fn write_control(fds: &Vec<i32>) -> (r: Vec<u8>)
    requires
        fds@.len() <= 0x1000_0000,
    ensures
        r@ == control_bytes(fds@),
{
    let mut out: Vec<u8> = Vec::new();
    if fds.len() == 0 {
        put_zeros(&mut out, HEADER_LEN);
        assert(out@ =~= control_bytes(fds@));
        return out;
    }
    let payload: usize = DESCRIPTOR_LEN * fds.len();
    words::put_u64(&mut out, (HEADER_LEN + payload) as u64);
    words::put_u32(&mut out, SOL_SOCKET);
    words::put_u32(&mut out, SCM_RIGHTS);
    let ghost header = out@;
    let mut i: usize = 0;
    assert(header + descriptor_bytes(fds@.take(0)) =~= header);
    while i < fds.len()
        invariant
            i <= fds@.len(),
            out@ == header + descriptor_bytes(fds@.take(i as int)),
        decreases fds@.len() - i,
    {
        proof {
            assert(fds@.take(i + 1).drop_last() =~= fds@.take(i as int));
            assert(fds@.take(i + 1).last() == fds@[i as int]);
            let so_far = descriptor_bytes(fds@.take(i as int));
            let word = words::bytes_of((fds@[i as int] as u32) as nat, 4);
            assert((header + so_far) + word =~= header + (so_far + word));
        }
        words::put_u32(&mut out, fds[i] as u32);
        i = i + 1;
    }
    let pad: usize = (8 - payload % 8) % 8;
    put_zeros(&mut out, pad);
    proof {
        assert(fds@.take(fds@.len() as int) =~= fds@);
        assert(Seq::<u8>::empty() + words::bytes_of((HEADER_LEN + payload) as nat, 8)
            =~= words::bytes_of((HEADER_LEN + payload) as nat, 8));
        assert(pad == padding((DESCRIPTOR_LEN * fds@.len()) as int));
        assert(out@ =~= control_bytes(fds@));
    }
    out
}

/// The descriptors of a payload, up to position `n`.
pub open spec fn descriptors(payload: Seq<u8>, n: int) -> Seq<i32>
    decreases n,
{
    if n <= 0 {
        seq![]
    } else {
        descriptors(payload, n - 1).push(words::u32_at(payload, 4 * (n - 1)) as i32)
    }
}

/// A payload word is negative as a descriptor.
pub open spec fn has_negative(payload: Seq<u8>) -> bool {
    exists|k: int|
        0 <= k < payload.len() / 4 && #[trigger] words::u32_at(payload, 4 * k) >= 0x8000_0000
}

/// What the payload of a descriptor message holds.
pub open spec fn payload_outcome(payload: Seq<u8>) -> Result<Seq<i32>, BrokerError> {
    if payload.len() % 4 != 0 {
        Err(BrokerError::DescriptorAlignment)
    } else if has_negative(payload) {
        Err(BrokerError::NegativeDescriptor)
    } else {
        Ok(descriptors(payload, (payload.len() / 4) as int))
    }
}

/// The length a header at an offset states.
pub open spec fn stated_length(control: Seq<u8>, offset: int) -> int {
    words::value_of(control.subrange(offset, offset + 8)) as int
}

/// What one message holds; messages of another kind hold nothing.
pub open spec fn message_outcome(control: Seq<u8>, offset: int) -> Result<Seq<i32>, BrokerError> {
    let length = stated_length(control, offset);
    if words::u32_at(control, offset + 8) == SOL_SOCKET && words::u32_at(control, offset + 12)
        == SCM_RIGHTS {
        payload_outcome(control.subrange(offset + HEADER_LEN, offset + length))
    } else {
        Ok(seq![])
    }
}

/// The descriptors of the messages from an offset on, or the first thing that
/// is wrong with them.
pub open spec fn control_outcome(control: Seq<u8>, offset: int) -> Result<Seq<i32>, BrokerError>
    decreases control.len() + 8 - offset,
{
    if offset < 0 || offset + HEADER_LEN > control.len() {
        Ok(seq![])
    } else {
        let length = stated_length(control, offset);
        if length < HEADER_LEN || offset + length > control.len() {
            Err(BrokerError::ControlLength)
        } else {
            match message_outcome(control, offset) {
                Err(error) => Err(error),
                Ok(list) => match control_outcome(control, offset + aligned(length)) {
                    Err(error) => Err(error),
                    Ok(rest) => Ok(list + rest),
                },
            }
        }
    }
}

/// Descriptors in front of what follows them.
pub open spec fn prefixed(list: Seq<i32>, rest: Result<Seq<i32>, BrokerError>) -> Result<
    Seq<i32>,
    BrokerError,
> {
    match rest {
        Err(error) => Err(error),
        Ok(rest) => Ok(list + rest),
    }
}

/// Append the descriptors of one message.
fn read_payload(control: &[u8], start: usize, end: usize, out: &mut Vec<i32>) -> (r: Result<
    (),
    BrokerError,
>)
    requires
        start <= end <= control@.len(),
    ensures
        match payload_outcome(control@.subrange(start as int, end as int)) {
            Ok(list) => r is Ok && final(out)@ == old(out)@ + list,
            Err(expected) => r matches Err(error) && error == expected,
        },
{
    let ghost payload = control@.subrange(start as int, end as int);
    if (end - start) % 4 != 0 {
        return Err(BrokerError::DescriptorAlignment);
    }
    let count: usize = (end - start) / 4;
    let ghost begin = out@;
    let mut i: usize = 0;
    assert(begin + descriptors(payload, 0) =~= begin);
    while i < count
        invariant
            i <= count,
            start <= end <= control@.len(),
            payload == control@.subrange(start as int, end as int),
            payload.len() % 4 == 0,
            count == payload.len() / 4,
            out@ == begin + descriptors(payload, i as int),
            forall|k: int| 0 <= k < i ==> #[trigger] words::u32_at(payload, 4 * k) < 0x8000_0000,
        decreases count - i,
    {
        let total: usize = control.len();
        assert(start + 4 * i + 4 <= end <= total);
        let word = words::get_u32(control, start + 4 * i);
        proof {
            assert(payload.subrange(4 * i as int, 4 * i + 4) =~= control@.subrange(
                start + 4 * i,
                start + 4 * i + 4,
            ));
            assert(word == words::u32_at(payload, 4 * i as int));
        }
        if word >= 0x8000_0000 {
            assert(has_negative(payload));
            return Err(BrokerError::NegativeDescriptor);
        }
        proof {
            let so_far = descriptors(payload, i as int);
            assert((begin + so_far).push(word as i32) =~= begin + so_far.push(word as i32));
        }
        out.push(word as i32);
        i = i + 1;
    }
    assert(!has_negative(payload));
    Ok(())
}

/// Read the descriptors out of a control buffer.
pub fn read_control(control: &[u8]) -> (r: Result<Vec<i32>, BrokerError>)
    ensures
        match control_outcome(control@, 0) {
            Ok(expected) => r matches Ok(list) && list@ == expected,
            Err(expected) => r matches Err(error) && error == expected,
        },
{
    let total: usize = control.len();
    let mut out: Vec<i32> = Vec::new();
    let mut offset: usize = 0;
    let mut more = total >= HEADER_LEN;
    proof {
        let rest = control_outcome(control@, 0);
        assert(prefixed(out@, rest) == rest) by {
            if let Ok(list) = rest {
                assert(out@ + list =~= list);
            }
        }
        if !more {
            assert(out@ =~= Seq::<i32>::empty());
        }
    }
    while more
        invariant
            total == control@.len(),
            more ==> offset + HEADER_LEN <= total,
            more ==> control_outcome(control@, 0) == prefixed(
                out@,
                control_outcome(control@, offset as int),
            ),
            !more ==> control_outcome(control@, 0) == Ok::<Seq<i32>, BrokerError>(out@),
        decreases
                if more {
                    total - offset + 1
                } else {
                    0
                },
    {
        let length = words::get_u64(control, offset);
        if length < HEADER_LEN as u64 || length > (total - offset) as u64 {
            return Err(BrokerError::ControlLength);
        }
        let length: usize = length as usize;
        let end: usize = offset + length;
        let ghost before = out@;
        if words::get_u32(control, offset + 8) == SOL_SOCKET && words::get_u32(control, offset + 12)
            == SCM_RIGHTS {
            match read_payload(control, offset + HEADER_LEN, end, &mut out) {
                Ok(_) => {},
                Err(error) => {
                    return Err(error);
                },
            }
        } else {
            assert(out@ + Seq::<i32>::empty() =~= out@);
        }
        let pad: usize = (8 - length % 8) % 8;
        proof {
            let list = message_outcome(control@, offset as int)->Ok_0;
            assert(out@ == before + list);
            let next = offset + aligned(length as int);
            assert(next == end + pad);
            let rest = control_outcome(control@, next);
            if let Ok(tail) = rest {
                assert(before + (list + tail) =~= out@ + tail);
            }
            assert(control_outcome(control@, 0) == prefixed(out@, rest));
            if total - end < pad + HEADER_LEN {
                assert(rest == Ok::<Seq<i32>, BrokerError>(seq![]));
                assert(out@ + Seq::<i32>::empty() =~= out@);
            }
        }
        if total - end < pad + HEADER_LEN {
            more = false;
        } else {
            offset = end + pad;
        }
    }
    Ok(out)
}

proof fn lemma_descriptor_bytes(fds: Seq<i32>)
    requires
        forall|i: int| 0 <= i < fds.len() ==> #[trigger] fds[i] >= 0,
    ensures
        descriptor_bytes(fds).len() == 4 * fds.len(),
        forall|k: int|
            0 <= k < fds.len() ==> #[trigger] words::u32_at(descriptor_bytes(fds), 4 * k)
                == fds[k] as u32,
        descriptors(descriptor_bytes(fds), fds.len() as int) == fds,
    decreases fds.len(),
{
    if fds.len() > 0 {
        let short = fds.drop_last();
        assert forall|i: int| 0 <= i < short.len() implies #[trigger] short[i] >= 0 by {
            assert(fds[i] >= 0);
        }
        lemma_descriptor_bytes(short);
        let head = descriptor_bytes(short);
        let last = fds.last();
        assert(fds[fds.len() - 1] >= 0);
        let word = words::bytes_of((last as u32) as nat, 4);
        words::lemma_words((last as u32) as nat, 4);
        let all = descriptor_bytes(fds);
        let n = short.len() as int;
        words::lemma_bounds();
        words::lemma_value_of_bytes((last as u32) as nat, 4);
        assert(all.subrange(4 * n, 4 * n + 4) =~= word);
        assert forall|k: int| 0 <= k < fds.len() implies #[trigger] words::u32_at(all, 4 * k)
            == fds[k] as u32 by {
            if k < n {
                assert(all.subrange(4 * k, 4 * k + 4) =~= head.subrange(4 * k, 4 * k + 4));
                assert(words::u32_at(head, 4 * k) == short[k] as u32);
            }
        }
        lemma_descriptors_match(all, fds, fds.len() as int);
    } else {
        assert(descriptors(descriptor_bytes(fds), 0) =~= fds);
    }
}

proof fn lemma_descriptors_match(payload: Seq<u8>, fds: Seq<i32>, n: int)
    requires
        0 <= n <= fds.len(),
        forall|i: int| 0 <= i < fds.len() ==> #[trigger] fds[i] >= 0,
        forall|k: int|
            0 <= k < fds.len() ==> #[trigger] words::u32_at(payload, 4 * k) == fds[k] as u32,
    ensures
        descriptors(payload, n) == fds.take(n),
    decreases n,
{
    if n > 0 {
        lemma_descriptors_match(payload, fds, n - 1);
        assert(fds[n - 1] >= 0);
        assert(words::u32_at(payload, 4 * (n - 1)) == fds[n - 1] as u32);
        assert(fds.take(n) =~= fds.take(n - 1).push(fds[n - 1]));
    } else {
        assert(fds.take(0) =~= Seq::<i32>::empty());
    }
    if n == fds.len() {
        assert(fds.take(n) =~= fds);
    }
}

/// A message's descriptors come out as they went in, in order.
pub proof fn descriptors_round_trip(fds: Seq<i32>)
    requires
        0 < fds.len() <= 0x1000_0000,
        forall|i: int| 0 <= i < fds.len() ==> #[trigger] fds[i] >= 0,
    ensures
        control_outcome(control_bytes(fds), 0) == Ok::<Seq<i32>, BrokerError>(fds),
{
    let control = control_bytes(fds);
    let payload = descriptor_bytes(fds);
    lemma_descriptor_bytes(fds);
    let n = fds.len() as int;
    let length = (HEADER_LEN + DESCRIPTOR_LEN * fds.len()) as nat;
    words::lemma_words(length, 8);
    words::lemma_words(SOL_SOCKET as nat, 4);
    words::lemma_words(SCM_RIGHTS as nat, 4);
    words::lemma_bounds();
    words::lemma_value_of_bytes(length, 8);
    words::lemma_value_of_bytes(SOL_SOCKET as nat, 4);
    words::lemma_value_of_bytes(SCM_RIGHTS as nat, 4);
    assert(control.subrange(0, 8) =~= words::bytes_of(length, 8));
    assert(control.subrange(8, 12) =~= words::bytes_of(SOL_SOCKET as nat, 4));
    assert(control.subrange(12, 16) =~= words::bytes_of(SCM_RIGHTS as nat, 4));
    assert(control.subrange(16, 16 + 4 * n) =~= payload);
    assert(!has_negative(payload)) by {
        if has_negative(payload) {
            let k = choose|k: int|
                0 <= k < payload.len() / 4 && #[trigger] words::u32_at(payload, 4 * k)
                    >= 0x8000_0000;
            assert(fds[k] >= 0);
            assert(words::u32_at(payload, 4 * k) == fds[k] as u32);
        }
    }
    assert(message_outcome(control, 0) == Ok::<Seq<i32>, BrokerError>(fds));
    let next = aligned(length as int);
    assert(control_outcome(control, next) == Ok::<Seq<i32>, BrokerError>(seq![]));
    assert(fds + Seq::<i32>::empty() =~= fds);
}

/// What a receive returned: the payload and the descriptors, unless either was
/// cut off.
pub fn receive_message(bytes: Vec<u8>, truncated: bool, control: &[u8]) -> (r: Result<
    (Vec<u8>, Vec<i32>),
    BrokerError,
>)
    ensures
        if truncated {
            r == Err::<(Vec<u8>, Vec<i32>), BrokerError>(BrokerError::Truncated)
        } else {
            match control_outcome(control@, 0) {
                Ok(expected) => r matches Ok(message) && message.0 == bytes && message.1@
                    == expected,
                Err(expected) => r matches Err(error) && error == expected,
            }
        },
{
    if truncated {
        return Err(BrokerError::Truncated);
    }
    match read_control(control) {
        Ok(list) => Ok((bytes, list)),
        Err(error) => Err(error),
    }
}

/// A message is sent whole or not at all.
pub fn sent_message(sent: usize, length: usize) -> (r: Result<(), BrokerError>)
    ensures
        match r {
            Ok(_) => sent == length,
            Err(error) => sent != length && error == BrokerError::ShortMessage,
        },
{
    if sent != length {
        Err(BrokerError::ShortMessage)
    } else {
        Ok(())
    }
}

/// A message is received whole, with the descriptors of its control data, or not
/// at all; one that was sent in part was not sent.
pub proof fn messages_are_whole(
    bytes: Vec<u8>,
    truncated: bool,
    control: &[u8],
    r: Result<(Vec<u8>, Vec<i32>), BrokerError>,
    sent: usize,
    length: usize,
    s: Result<(), BrokerError>,
)
    requires
        call_ensures(receive_message, (bytes, truncated, control), r),
        call_ensures(sent_message, (sent, length), s),
    ensures
        r is Ok <==> !truncated && control_outcome(control@, 0) is Ok,
        r matches Ok(message) ==> message.0 == bytes && control_outcome(control@, 0) == Ok::<
            Seq<i32>,
            BrokerError,
        >(message.1@),
        s is Ok <==> sent == length,
{
}

/// Control data without a whole header carries no descriptors; a header that
/// claims less than itself or more than there is is an error.
pub proof fn control_headers_are_checked(control: Seq<u8>)
    ensures
        control.len() < 16 ==> control_outcome(control, 0) == Ok::<Seq<i32>, BrokerError>(seq![]),
        control.len() >= 16 && (stated_length(control, 0) < 16 || stated_length(control, 0)
            > control.len()) ==> control_outcome(control, 0) == Err::<Seq<i32>, BrokerError>(
            BrokerError::ControlLength,
        ),
{
}

/// A payload of descriptors is read exactly when it is made of whole words, none
/// of them negative.
pub proof fn descriptors_are_whole_words(payload: Seq<u8>)
    ensures
        payload_outcome(payload) is Ok <==> payload.len() % 4 == 0 && forall|k: int|
            0 <= k < payload.len() / 4 ==> #[trigger] words::u32_at(payload, 4 * k) <= 0x7fff_ffff,
{
}

} // verus!
