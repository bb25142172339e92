//! Junctions: the segments that a location's path is made of.

use vstd::prelude::*;
use crate::compact::{
    compact_encoding, compact_parse, encode_compact, lemma_compact_parse_encoding,
    lemma_compact_parse_sound, read_compact,
};
use crate::error::DecodeError;
use crate::version::Version;

verus! {

/// The number of bytes in an account identifier.
pub const ACCOUNT_ID_LEN: usize = 32;

/// The class of network that an account belongs to.
#[derive(Clone, Copy, Debug, PartialEq, Eq, Structural)]
pub enum NetworkId {
    /// Any network: the account is named without regard to where it lives.
    Any,
    /// The Polkadot relay chain.
    Polkadot,
    /// The Kusama relay chain.
    Kusama,
}

/// One segment of a location's path.
#[derive(Clone, Copy, Debug, PartialEq, Eq)]
pub enum Junction {
    /// The chain with the given identifier.
    Parachain(u32),
    /// The account with the given 32-byte identifier on a network of the
    /// given class.
    AccountId32 { network: NetworkId, id: [u8; 32] },
}

/// What a junction is, with the account identifier as a byte sequence.
pub enum JunctionView {
    Parachain(u32),
    AccountId32 { network: NetworkId, id: Seq<u8> },
}

impl JunctionView {
    /// An account identifier has exactly 32 bytes.
    pub open spec fn wf(self) -> bool {
        match self {
            JunctionView::Parachain(_) => true,
            JunctionView::AccountId32 { network, id } => id.len() == ACCOUNT_ID_LEN,
        }
    }
}

impl View for Junction {
    type V = JunctionView;

    open spec fn view(&self) -> JunctionView {
        match *self {
            Junction::Parachain(id) => JunctionView::Parachain(id),
            Junction::AccountId32 { network, id } => JunctionView::AccountId32 { network, id: id@ },
        }
    }
}

/// The views of a sequence of junctions, in order.
pub open spec fn junction_views(s: Seq<Junction>) -> Seq<JunctionView> {
    Seq::new(s.len(), |i: int| s[i]@)
}

/// The byte that stands for a network class.
pub open spec fn network_tag(network: NetworkId) -> u8 {
    match network {
        NetworkId::Any => 0,
        NetworkId::Polkadot => 2,
        NetworkId::Kusama => 3,
    }
}

/// The network class that a byte stands for, if any.
pub open spec fn network_of_tag(tag: u8) -> Option<NetworkId> {
    if tag == 0 {
        Some(NetworkId::Any)
    } else if tag == 2 {
        Some(NetworkId::Polkadot)
    } else if tag == 3 {
        Some(NetworkId::Kusama)
    } else {
        None
    }
}

/// The variant tag of a chain junction. The legacy format counts its
/// junction kinds from one place further on than the current format.
pub open spec fn parachain_tag(version: Version) -> u8 {
    match version {
        Version::V0 => 1,
        Version::V1 => 0,
    }
}

/// The variant tag of an account junction.
pub open spec fn account_tag(version: Version) -> u8 {
    match version {
        Version::V0 => 2,
        Version::V1 => 1,
    }
}

/// The encoding of a junction in the given version of the format.
pub open spec fn junction_encoding(j: JunctionView, version: Version) -> Seq<u8> {
    match j {
        JunctionView::Parachain(id) => seq![parachain_tag(version)] + compact_encoding(id as nat),
        JunctionView::AccountId32 { network, id } => seq![
            account_tag(version),
            network_tag(network),
        ] + id,
    }
}

/// What the decoder makes of the front of `b`: a junction and the number of
/// bytes it took, or the reason the bytes are no junction.
#[verifier::opaque]
pub open spec fn junction_parse(b: Seq<u8>, version: Version) -> Result<
    (JunctionView, nat),
    DecodeError,
> {
    if b.len() == 0 {
        Err(DecodeError::UnexpectedEnd)
    } else if b[0] == parachain_tag(version) {
        match compact_parse(b.skip(1)) {
            Err(e) => Err(e),
            Ok((v, n)) => if v > u32::MAX {
                Err(DecodeError::OutOfRange)
            } else {
                Ok((JunctionView::Parachain(v as u32), 1 + n))
            },
        }
    } else if b[0] == account_tag(version) {
        if b.len() < 2 {
            Err(DecodeError::UnexpectedEnd)
        } else {
            match network_of_tag(b[1]) {
                None => Err(DecodeError::UnknownTag),
                Some(network) => if b.len() < 2 + ACCOUNT_ID_LEN {
                    Err(DecodeError::UnexpectedEnd)
                } else {
                    Ok(
                        (
                            JunctionView::AccountId32 {
                                network,
                                id: b.subrange(2, 2 + ACCOUNT_ID_LEN as int),
                            },
                            (2 + ACCOUNT_ID_LEN) as nat,
                        ),
                    )
                },
            }
        }
    } else {
        Err(DecodeError::UnknownTag)
    }
}

/// Decoding an encoded junction, whatever follows it, gives the junction
/// back and stops where its encoding ends.
pub proof fn lemma_junction_parse_encoding(j: JunctionView, version: Version, rest: Seq<u8>)
    requires
        j.wf(),
    ensures
        junction_parse(junction_encoding(j, version) + rest, version) == Ok::<
            (JunctionView, nat),
            DecodeError,
        >((j, junction_encoding(j, version).len())),
{
    reveal(junction_parse);
    let enc = junction_encoding(j, version);
    let b = enc + rest;
    assert(b[0] == enc[0]);
    match j {
        JunctionView::Parachain(id) => {
            let inner = compact_encoding(id as nat);
            lemma_compact_parse_encoding(id as nat, rest);
            assert(b.skip(1) =~= inner + rest);
        },
        JunctionView::AccountId32 { network, id } => {
            assert(b[1] == enc[1]);
            assert(b.subrange(2, 2 + ACCOUNT_ID_LEN as int) =~= id);
        },
    }
}

/// Whatever the decoder accepts as a junction is the encoding of the
/// junction it reports.
pub proof fn lemma_junction_parse_sound(b: Seq<u8>, version: Version)
    ensures
        match junction_parse(b, version) {
            Ok((j, n)) => n <= b.len() && j.wf() && b.subrange(0, n as int) == junction_encoding(
                j,
                version,
            ),
            Err(_) => true,
        },
{
    reveal(junction_parse);
    match junction_parse(b, version) {
        Ok((j, n)) => {
            match j {
                JunctionView::Parachain(id) => {
                    let tail = b.skip(1);
                    lemma_compact_parse_sound(tail);
                    let m = (n - 1) as nat;
                    assert(b.subrange(0, n as int) =~= seq![b[0]] + tail.subrange(0, m as int));
                },
                JunctionView::AccountId32 { network, id } => {
                    assert(b.subrange(0, n as int) =~= seq![b[0], b[1]] + id);
                },
            }
        },
        Err(_) => {},
    }
}

impl NetworkId {
    /// The byte that stands for this network class.
    pub fn tag(&self) -> (t: u8)
        ensures
            t == network_tag(*self),
    {
        match self {
            NetworkId::Any => 0,
            NetworkId::Polkadot => 2,
            NetworkId::Kusama => 3,
        }
    }

    /// The network class that a byte stands for, if any.
    pub fn from_tag(tag: u8) -> (r: Option<NetworkId>)
        ensures
            r == network_of_tag(tag),
    {
        if tag == 0 {
            Some(NetworkId::Any)
        } else if tag == 2 {
            Some(NetworkId::Polkadot)
        } else if tag == 3 {
            Some(NetworkId::Kusama)
        } else {
            None
        }
    }
}

/// Appends the bytes of an account identifier.
fn write_account_id(id: &[u8; 32], out: &mut Vec<u8>)
    ensures
        final(out)@ == old(out)@ + id@,
{
    let mut i: usize = 0;
    while i < 32
        invariant
            i <= 32,
            out@ == old(out)@ + id@.subrange(0, i as int),
        decreases 32 - i,
    {
        let ghost before = out@;
        out.push(id[i]);
        proof {
            assert(before.push(id@[i as int]) =~= old(out)@ + id@.subrange(0, i + 1));
        }
        i = i + 1;
    }
    proof {
        assert(id@.subrange(0, 32) =~= id@);
    }
}

/// Reads the 32 bytes of an account identifier from `start` on.
fn read_account_id(bytes: &[u8], start: usize) -> (id: [u8; 32])
    requires
        start + 32 <= bytes.len(),
    ensures
        id@ == bytes@.subrange(start as int, start + 32),
{
    let mut id: [u8; 32] = [0u8; 32];
    let mut i: usize = 0;
    while i < 32
        invariant
            i <= 32,
            start + 32 <= bytes.len(),
            forall|k: int| 0 <= k < i ==> id@[k] == bytes@[start + k],
        decreases 32 - i,
    {
        id[i] = bytes[start + i];
        i = i + 1;
    }
    proof {
        assert(id@ =~= bytes@.subrange(start as int, start + 32));
    }
    id
}

impl Junction {
    /// The variant tag of this junction in the given version of the format.
    pub fn tag(&self, version: Version) -> (t: u8)
        ensures
            t == junction_encoding(self@, version)[0],
    {
        match (self, version) {
            (Junction::Parachain(_), Version::V0) => 1,
            (Junction::Parachain(_), Version::V1) => 0,
            (Junction::AccountId32 { .. }, Version::V0) => 2,
            (Junction::AccountId32 { .. }, Version::V1) => 1,
        }
    }

    /// Appends the encoding of this junction, in the given version of the
    /// format, to `out`.
    pub fn encode_to(&self, version: Version, out: &mut Vec<u8>)
        ensures
            final(out)@ == old(out)@ + junction_encoding(self@, version),
            self@.wf(),
    {
        let tag = self.tag(version);
        match self {
            Junction::Parachain(id) => {
                out.push(tag);
                let ghost mid = out@;
                encode_compact(*id as u128, out);
                proof {
                    assert(mid + compact_encoding(*id as nat) =~= old(out)@ + (seq![tag]
                        + compact_encoding(*id as nat)));
                }
            },
            Junction::AccountId32 { network, id } => {
                out.push(tag);
                out.push(network.tag());
                let ghost mid = out@;
                write_account_id(id, out);
                proof {
                    assert(mid + id@ =~= old(out)@ + (seq![tag, network_tag(*network)] + id@));
                }
            },
        }
    }
}

/// Reads one junction that starts at `start`; gives the junction and the
/// position just after it.
pub(crate) fn read_junction(bytes: &[u8], start: usize, version: Version) -> (r: Result<
    (Junction, usize),
    DecodeError,
>)
    requires
        start <= bytes.len(),
    ensures
        match junction_parse(bytes@.skip(start as int), version) {
            Ok((j, n)) => match r {
                Ok((x, end)) => x@ == j && end == start + n && end <= bytes.len(),
                Err(_) => false,
            },
            Err(e) => r == Err::<(Junction, usize), DecodeError>(e),
        },
{
    reveal(junction_parse);
    let ghost b = bytes@.skip(start as int);
    if start >= bytes.len() {
        return Err(DecodeError::UnexpectedEnd);
    }
    let tag: u8 = bytes[start];
    assert(b[0] == tag);
    let parachain: u8 = match version {
        Version::V0 => 1,
        Version::V1 => 0,
    };
    let account: u8 = match version {
        Version::V0 => 2,
        Version::V1 => 1,
    };
    if tag == parachain {
        proof {
            assert(b.skip(1) =~= bytes@.skip(start + 1));
        }
        match read_compact(bytes, start + 1) {
            Err(e) => Err(e),
            Ok((v, end)) => {
                if v > 0xffff_ffff {
                    Err(DecodeError::OutOfRange)
                } else {
                    Ok((Junction::Parachain(v as u32), end))
                }
            },
        }
    } else if tag == account {
        if bytes.len() - start < 2 {
            return Err(DecodeError::UnexpectedEnd);
        }
        assert(b[1] == bytes@[start + 1]);
        match NetworkId::from_tag(bytes[start + 1]) {
            None => Err(DecodeError::UnknownTag),
            Some(network) => {
                if bytes.len() - start < 34 {
                    return Err(DecodeError::UnexpectedEnd);
                }
                let id = read_account_id(bytes, start + 2);
                proof {
                    assert(b.subrange(2, 34) =~= bytes@.subrange(start + 2, start + 34));
                }
                Ok((Junction::AccountId32 { network, id }, start + 34))
            },
        }
    } else {
        Err(DecodeError::UnknownTag)
    }
}

} // verus!
