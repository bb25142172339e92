//! Location descriptors: where in the hierarchy of consensus systems a
//! chain or an account lives.
//!
//! A location is written in one of two formats that do not agree. The legacy
//! format is a path of exactly one junction. The current format is a count
//! of steps up to parent systems followed by a path of up to eight junctions
//! down from there; with no junctions it names the place itself.

use vstd::prelude::*;
use crate::error::DecodeError;
use crate::junction::{
    junction_encoding, junction_parse, junction_views, lemma_junction_parse_encoding,
    lemma_junction_parse_sound, read_junction, Junction, JunctionView,
};
use crate::version::{version_of_tag, Version};

verus! {

/// The largest number of junctions in a location of the current format.
pub const MAX_JUNCTIONS: usize = 8;

/// The variant tag of a legacy path of one junction.
pub const LEGACY_SINGLE_TAG: u8 = 1;

/// A location in the legacy format: a path of one junction.
#[derive(Clone, Copy, Debug, PartialEq, Eq)]
pub enum LegacyLocation {
    /// The place that the one junction leads to.
    X1(Junction),
}

/// A location in the current format.
#[derive(Debug, PartialEq, Eq)]
pub struct Location {
    parents: u8,
    interior: Vec<Junction>,
}

/// A location together with the version of the format it is written in.
/// The tag and the payload cannot disagree: each variant holds the payload
/// type of its own format.
#[derive(Debug, PartialEq, Eq)]
pub enum VersionedLocation {
    V0(LegacyLocation),
    V1(Location),
}

/// What a legacy location is.
pub enum LegacyLocationView {
    X1(JunctionView),
}

/// What a location of the current format is.
pub struct LocationView {
    /// How many steps up to parent systems the path starts with.
    pub parents: u8,
    /// The junctions that lead down from there.
    pub interior: Seq<JunctionView>,
}

/// What a versioned location is.
pub enum VersionedLocationView {
    V0(LegacyLocationView),
    V1(LocationView),
}

impl LegacyLocationView {
    pub open spec fn wf(self) -> bool {
        match self {
            LegacyLocationView::X1(j) => j.wf(),
        }
    }
}

impl LocationView {
    /// At most eight junctions, each of them well formed.
    pub open spec fn wf(self) -> bool {
        &&& self.interior.len() <= MAX_JUNCTIONS
        &&& forall|i: int| 0 <= i < self.interior.len() ==> (#[trigger] self.interior[i]).wf()
    }

    /// The place itself: no step up, no junction down.
    pub open spec fn here() -> LocationView {
        LocationView { parents: 0, interior: Seq::empty() }
    }
}

impl VersionedLocationView {
    pub open spec fn wf(self) -> bool {
        match self {
            VersionedLocationView::V0(l) => l.wf(),
            VersionedLocationView::V1(l) => l.wf(),
        }
    }

    /// The version of the format that the location is written in.
    pub open spec fn version(self) -> Version {
        match self {
            VersionedLocationView::V0(_) => Version::V0,
            VersionedLocationView::V1(_) => Version::V1,
        }
    }
}

impl View for LegacyLocation {
    type V = LegacyLocationView;

    open spec fn view(&self) -> LegacyLocationView {
        match *self {
            LegacyLocation::X1(j) => LegacyLocationView::X1(j@),
        }
    }
}

impl View for Location {
    type V = LocationView;

    closed spec fn view(&self) -> LocationView {
        LocationView { parents: self.parents, interior: junction_views(self.interior@) }
    }
}

impl View for VersionedLocation {
    type V = VersionedLocationView;

    open spec fn view(&self) -> VersionedLocationView {
        match *self {
            VersionedLocation::V0(l) => VersionedLocationView::V0(l@),
            VersionedLocation::V1(l) => VersionedLocationView::V1(l@),
        }
    }
}

/// The encodings of a sequence of junctions of the current format, one
/// after the other.
pub open spec fn junctions_encoding(s: Seq<JunctionView>) -> Seq<u8>
    decreases s.len(),
{
    if s.len() == 0 {
        Seq::empty()
    } else {
        junctions_encoding(s.drop_last()) + junction_encoding(s.last(), Version::V1)
    }
}

/// What the decoder makes of `count` junctions at the front of `b`.
pub open spec fn junctions_parse(b: Seq<u8>, count: nat) -> Result<
    (Seq<JunctionView>, nat),
    DecodeError,
>
    decreases count,
{
    if count == 0 {
        Ok((Seq::empty(), 0))
    } else {
        match junctions_parse(b, (count - 1) as nat) {
            Err(e) => Err(e),
            Ok((js, n)) => match junction_parse(b.skip(n as int), Version::V1) {
                Err(e) => Err(e),
                Ok((j, m)) => Ok((js.push(j), n + m)),
            },
        }
    }
}

/// The encoding of a location of the current format: the parent count, the
/// number of junctions, the junctions.
pub open spec fn location_encoding(l: LocationView) -> Seq<u8> {
    seq![l.parents, l.interior.len() as u8] + junctions_encoding(l.interior)
}

/// What the decoder makes of the front of `b` as a location of the current
/// format.
#[verifier::opaque]
pub open spec fn location_parse(b: Seq<u8>) -> Result<(LocationView, nat), DecodeError> {
    if b.len() < 2 {
        Err(DecodeError::UnexpectedEnd)
    } else if b[1] > MAX_JUNCTIONS {
        Err(DecodeError::TooManyJunctions)
    } else {
        match junctions_parse(b.skip(2), b[1] as nat) {
            Err(e) => Err(e),
            Ok((js, n)) => Ok((LocationView { parents: b[0], interior: js }, 2 + n)),
        }
    }
}

/// The encoding of a legacy location.
pub open spec fn legacy_location_encoding(l: LegacyLocationView) -> Seq<u8> {
    match l {
        LegacyLocationView::X1(j) => seq![LEGACY_SINGLE_TAG] + junction_encoding(j, Version::V0),
    }
}

/// What the decoder makes of the front of `b` as a legacy location.
pub open spec fn legacy_location_parse(b: Seq<u8>) -> Result<
    (LegacyLocationView, nat),
    DecodeError,
> {
    if b.len() == 0 {
        Err(DecodeError::UnexpectedEnd)
    } else if b[0] != LEGACY_SINGLE_TAG {
        Err(DecodeError::UnknownTag)
    } else {
        match junction_parse(b.skip(1), Version::V0) {
            Err(e) => Err(e),
            Ok((j, n)) => Ok((LegacyLocationView::X1(j), 1 + n)),
        }
    }
}

/// The encoding of a versioned location: the version tag, then the payload
/// in that version's format.
pub open spec fn versioned_location_encoding(v: VersionedLocationView) -> Seq<u8> {
    match v {
        VersionedLocationView::V0(l) => seq![Version::V0.spec_tag()] + legacy_location_encoding(l),
        VersionedLocationView::V1(l) => seq![Version::V1.spec_tag()] + location_encoding(l),
    }
}

/// What the decoder makes of the front of `b` as a versioned location.
#[verifier::opaque]
pub open spec fn versioned_location_parse(b: Seq<u8>) -> Result<
    (VersionedLocationView, nat),
    DecodeError,
> {
    if b.len() == 0 {
        Err(DecodeError::UnexpectedEnd)
    } else {
        match version_of_tag(b[0]) {
            None => Err(DecodeError::UnknownTag),
            Some(Version::V0) => match legacy_location_parse(b.skip(1)) {
                Err(e) => Err(e),
                Ok((l, n)) => Ok((VersionedLocationView::V0(l), 1 + n)),
            },
            Some(Version::V1) => match location_parse(b.skip(1)) {
                Err(e) => Err(e),
                Ok((l, n)) => Ok((VersionedLocationView::V1(l), 1 + n)),
            },
        }
    }
}

/// What decoding the whole of `b` as a versioned location gives: the
/// location, if `b` is one and nothing more.
pub open spec fn location_decoding(b: Seq<u8>) -> Result<VersionedLocationView, DecodeError> {
    match versioned_location_parse(b) {
        Err(e) => Err(e),
        Ok((v, n)) => if n < b.len() {
            Err(DecodeError::TrailingBytes)
        } else {
            Ok(v)
        },
    }
}

/// What decoding the whole of `b` gives to a caller who expects the given
/// version: a tag of the other version is refused before the payload is
/// looked at.
pub open spec fn location_decoding_as(b: Seq<u8>, version: Version) -> Result<
    VersionedLocationView,
    DecodeError,
> {
    if b.len() == 0 {
        Err(DecodeError::UnexpectedEnd)
    } else {
        match version_of_tag(b[0]) {
            None => Err(DecodeError::UnknownTag),
            Some(found) => if found != version {
                Err(DecodeError::VersionMismatch)
            } else {
                location_decoding(b)
            },
        }
    }
}

/// Once the decoder has failed on some number of junctions it fails the
/// same way on any larger number.
pub proof fn lemma_junctions_parse_error(b: Seq<u8>, failed: nat, count: nat)
    requires
        failed <= count,
        junctions_parse(b, failed) is Err,
    ensures
        junctions_parse(b, count) == junctions_parse(b, failed),
    decreases count,
{
    if failed < count {
        lemma_junctions_parse_error(b, failed, (count - 1) as nat);
    }
}

/// Decoding the encodings of a sequence of junctions, whatever follows
/// them, gives the sequence back.
pub proof fn lemma_junctions_parse_encoding(s: Seq<JunctionView>, rest: Seq<u8>)
    requires
        forall|i: int| 0 <= i < s.len() ==> (#[trigger] s[i]).wf(),
    ensures
        junctions_parse(junctions_encoding(s) + rest, s.len()) == Ok::<
            (Seq<JunctionView>, nat),
            DecodeError,
        >((s, junctions_encoding(s).len())),
    decreases s.len(),
{
    if s.len() > 0 {
        let front = s.drop_last();
        let last = junction_encoding(s.last(), Version::V1);
        let b = junctions_encoding(s) + rest;
        let n = junctions_encoding(front).len();
        assert(b =~= junctions_encoding(front) + (last + rest));
        lemma_junctions_parse_encoding(front, last + rest);
        lemma_junction_parse_encoding(s.last(), Version::V1, rest);
        assert(b.skip(n as int) =~= last + rest);
        assert(front.push(s.last()) =~= s);
    } else {
        assert(s =~= Seq::<JunctionView>::empty());
    }
}

/// Whatever the decoder accepts as `count` junctions is the encoding of the
/// junctions it reports.
pub proof fn lemma_junctions_parse_sound(b: Seq<u8>, count: nat)
    ensures
        match junctions_parse(b, count) {
            Ok((s, n)) => {
                &&& n <= b.len()
                &&& s.len() == count
                &&& forall|i: int| 0 <= i < s.len() ==> (#[trigger] s[i]).wf()
                &&& b.subrange(0, n as int) == junctions_encoding(s)
            },
            Err(_) => true,
        },
    decreases count,
{
    if count == 0 {
        assert(b.subrange(0, 0) =~= Seq::<u8>::empty());
    } else {
        lemma_junctions_parse_sound(b, (count - 1) as nat);
        match junctions_parse(b, (count - 1) as nat) {
            Err(_) => {},
            Ok((js, n)) => {
                let tail = b.skip(n as int);
                lemma_junction_parse_sound(tail, Version::V1);
                match junction_parse(tail, Version::V1) {
                    Err(_) => {},
                    Ok((j, m)) => {
                        let s = js.push(j);
                        assert(s.drop_last() =~= js);
                        assert(s.last() == j);
                        assert(b.subrange(0, (n + m) as int) =~= b.subrange(0, n as int) + tail.subrange(
                            0,
                            m as int,
                        ));
                    },
                }
            },
        }
    }
}

/// Decoding an encoded location of the current format, whatever follows
/// it, gives the location back.
pub proof fn lemma_location_parse_encoding(l: LocationView, rest: Seq<u8>)
    requires
        l.wf(),
    ensures
        location_parse(location_encoding(l) + rest) == Ok::<(LocationView, nat), DecodeError>(
            (l, location_encoding(l).len()),
        ),
{
    reveal(location_parse);
    let b = location_encoding(l) + rest;
    lemma_junctions_parse_encoding(l.interior, rest);
    assert(b[0] == l.parents);
    assert(b[1] == l.interior.len() as u8);
    assert(b.skip(2) =~= junctions_encoding(l.interior) + rest);
}

/// Whatever the decoder accepts as a location of the current format is the
/// encoding of the location it reports.
pub proof fn lemma_location_parse_sound(b: Seq<u8>)
    ensures
        match location_parse(b) {
            Ok((l, n)) => n <= b.len() && l.wf() && b.subrange(0, n as int) == location_encoding(l),
            Err(_) => true,
        },
{
    reveal(location_parse);
    if b.len() >= 2 && b[1] <= MAX_JUNCTIONS {
        let tail = b.skip(2);
        lemma_junctions_parse_sound(tail, b[1] as nat);
        match junctions_parse(tail, b[1] as nat) {
            Err(_) => {},
            Ok((js, n)) => {
                assert(b.subrange(0, (2 + n) as int) =~= seq![b[0], b[1]] + tail.subrange(0, n as int));
            },
        }
    }
}

/// Decoding an encoded legacy location, whatever follows it, gives the
/// location back.
pub proof fn lemma_legacy_location_parse_encoding(l: LegacyLocationView, rest: Seq<u8>)
    requires
        l.wf(),
    ensures
        legacy_location_parse(legacy_location_encoding(l) + rest) == Ok::<
            (LegacyLocationView, nat),
            DecodeError,
        >((l, legacy_location_encoding(l).len())),
{
    let b = legacy_location_encoding(l) + rest;
    match l {
        LegacyLocationView::X1(j) => {
            lemma_junction_parse_encoding(j, Version::V0, rest);
            assert(b[0] == LEGACY_SINGLE_TAG);
            assert(b.skip(1) =~= junction_encoding(j, Version::V0) + rest);
        },
    }
}

/// Whatever the decoder accepts as a legacy location is the encoding of the
/// location it reports.
pub proof fn lemma_legacy_location_parse_sound(b: Seq<u8>)
    ensures
        match legacy_location_parse(b) {
            Ok((l, n)) => n <= b.len() && l.wf() && b.subrange(0, n as int)
                == legacy_location_encoding(l),
            Err(_) => true,
        },
{
    if b.len() > 0 && b[0] == LEGACY_SINGLE_TAG {
        let tail = b.skip(1);
        lemma_junction_parse_sound(tail, Version::V0);
        match junction_parse(tail, Version::V0) {
            Err(_) => {},
            Ok((j, n)) => {
                assert(b.subrange(0, (1 + n) as int) =~= seq![b[0]] + tail.subrange(0, n as int));
            },
        }
    }
}

/// Decoding an encoded versioned location, whatever follows it, gives the
/// location back.
pub proof fn lemma_versioned_location_parse_encoding(v: VersionedLocationView, rest: Seq<u8>)
    requires
        v.wf(),
    ensures
        versioned_location_parse(versioned_location_encoding(v) + rest) == Ok::<
            (VersionedLocationView, nat),
            DecodeError,
        >((v, versioned_location_encoding(v).len())),
{
    reveal(versioned_location_parse);
    let b = versioned_location_encoding(v) + rest;
    match v {
        VersionedLocationView::V0(l) => {
            lemma_legacy_location_parse_encoding(l, rest);
            assert(b[0] == 0);
            assert(b.skip(1) =~= legacy_location_encoding(l) + rest);
        },
        VersionedLocationView::V1(l) => {
            lemma_location_parse_encoding(l, rest);
            assert(b[0] == 1);
            assert(b.skip(1) =~= location_encoding(l) + rest);
        },
    }
}

/// Whatever the decoder accepts as a versioned location is the encoding of
/// the location it reports.
pub proof fn lemma_versioned_location_parse_sound(b: Seq<u8>)
    ensures
        match versioned_location_parse(b) {
            Ok((v, n)) => n <= b.len() && v.wf() && b.subrange(0, n as int)
                == versioned_location_encoding(v),
            Err(_) => true,
        },
{
    reveal(versioned_location_parse);
    if b.len() > 0 {
        let tail = b.skip(1);
        lemma_legacy_location_parse_sound(tail);
        lemma_location_parse_sound(tail);
        match versioned_location_parse(b) {
            Err(_) => {},
            Ok((v, n)) => {
                let m = (n - 1) as nat;
                assert(b.subrange(0, n as int) =~= seq![b[0]] + tail.subrange(0, m as int));
            },
        }
    }
}

/// Encoding a location and decoding the bytes gives the location back, to a
/// caller who expects no particular version and to one who expects the
/// version it was written in.
pub proof fn lemma_location_round_trip(v: VersionedLocationView)
    requires
        v.wf(),
    ensures
        location_decoding(versioned_location_encoding(v)) == Ok::<
            VersionedLocationView,
            DecodeError,
        >(v),
        location_decoding_as(versioned_location_encoding(v), v.version()) == Ok::<
            VersionedLocationView,
            DecodeError,
        >(v),
{
    let enc = versioned_location_encoding(v);
    lemma_versioned_location_parse_encoding(v, Seq::empty());
    assert(enc + Seq::<u8>::empty() =~= enc);
}

/// Decoding an encoded location as the version it was not written in fails
/// with a version mismatch; the payload is never read as the other format.
pub proof fn lemma_location_version_mismatch(v: VersionedLocationView, version: Version)
    requires
        version != v.version(),
    ensures
        location_decoding_as(versioned_location_encoding(v), version) == Err::<
            VersionedLocationView,
            DecodeError,
        >(DecodeError::VersionMismatch),
{
}

/// Two well-formed locations that are written as the same bytes are the
/// same location.
pub proof fn lemma_location_encoding_injective(v: VersionedLocationView, w: VersionedLocationView)
    requires
        v.wf(),
        w.wf(),
        versioned_location_encoding(v) == versioned_location_encoding(w),
    ensures
        v == w,
{
    lemma_location_round_trip(v);
    lemma_location_round_trip(w);
}

/// Only the encoding of a location decodes to it: a byte string that
/// decodes is the encoding of what it decodes to.
pub proof fn lemma_location_decoding_sound(b: Seq<u8>)
    ensures
        match location_decoding(b) {
            Ok(v) => v.wf() && b == versioned_location_encoding(v),
            Err(_) => true,
        },
{
    lemma_versioned_location_parse_sound(b);
    match location_decoding(b) {
        Ok(v) => {
            assert(b.subrange(0, b.len() as int) =~= b);
        },
        Err(_) => {},
    }
}

impl LegacyLocation {
    /// The junction that the path consists of.
    pub fn junction(&self) -> (j: Junction)
        ensures
            self@ == LegacyLocationView::X1(j@),
    {
        match self {
            LegacyLocation::X1(j) => *j,
        }
    }

    /// Appends the encoding of this location to `out`.
    pub fn encode_to(&self, out: &mut Vec<u8>)
        ensures
            final(out)@ == old(out)@ + legacy_location_encoding(self@),
            self@.wf(),
    {
        match self {
            LegacyLocation::X1(j) => {
                out.push(LEGACY_SINGLE_TAG);
                let ghost mid = out@;
                j.encode_to(Version::V0, out);
                proof {
                    let body = junction_encoding(j@, Version::V0);
                    assert(mid + body =~= old(out)@ + (seq![LEGACY_SINGLE_TAG] + body));
                }
            },
        }
    }
}

/// Reads one legacy location that starts at `start`; gives the location and
/// the position just after it.
pub(crate) fn read_legacy_location(bytes: &[u8], start: usize) -> (r: Result<
    (LegacyLocation, usize),
    DecodeError,
>)
    requires
        start <= bytes.len(),
    ensures
        match legacy_location_parse(bytes@.skip(start as int)) {
            Ok((l, n)) => match r {
                Ok((x, end)) => x@ == l && end == start + n && end <= bytes.len(),
                Err(_) => false,
            },
            Err(e) => r == Err::<(LegacyLocation, usize), DecodeError>(e),
        },
{
    let ghost b = bytes@.skip(start as int);
    if start >= bytes.len() {
        return Err(DecodeError::UnexpectedEnd);
    }
    assert(b[0] == bytes@[start as int]);
    if bytes[start] != LEGACY_SINGLE_TAG {
        return Err(DecodeError::UnknownTag);
    }
    proof {
        assert(b.skip(1) =~= bytes@.skip(start + 1));
    }
    match read_junction(bytes, start + 1, Version::V0) {
        Err(e) => Err(e),
        Ok((j, end)) => Ok((LegacyLocation::X1(j), end)),
    }
}

impl Location {
    #[verifier::type_invariant]
    spec fn within_limit(self) -> bool {
        self.interior.len() <= MAX_JUNCTIONS
    }

    /// The place itself: no step up, no junction down.
    pub fn here() -> (l: Location)
        ensures
            l@ == LocationView::here(),
    {
        let l = Location { parents: 0, interior: Vec::new() };
        proof {
            assert(l@.interior =~= Seq::<JunctionView>::empty());
        }
        l
    }

    /// The location that lies `parents` steps up and then down along
    /// `interior`, unless the path is longer than eight junctions.
    pub fn new(parents: u8, interior: Vec<Junction>) -> (r: Option<Location>)
        ensures
            match r {
                Some(l) => interior.len() <= MAX_JUNCTIONS && l@ == (LocationView {
                    parents,
                    interior: junction_views(interior@),
                }) && l@.wf(),
                None => interior.len() > MAX_JUNCTIONS,
            },
    {
        if interior.len() > MAX_JUNCTIONS {
            None
        } else {
            Some(Location { parents, interior })
        }
    }

    /// How many steps up to parent systems the path starts with.
    pub fn parents(&self) -> (p: u8)
        ensures
            p == self@.parents,
    {
        self.parents
    }

    /// The junctions that lead down, in order.
    pub fn junctions(&self) -> (js: &Vec<Junction>)
        ensures
            junction_views(js@) == self@.interior,
            self@.wf(),
    {
        proof {
            use_type_invariant(self);
        }
        &self.interior
    }

    /// Whether this is the place itself.
    pub fn is_here(&self) -> (b: bool)
        ensures
            b == (self@ == LocationView::here()),
    {
        let b = self.parents == 0 && self.interior.len() == 0;
        proof {
            if b {
                assert(self@.interior =~= Seq::<JunctionView>::empty());
            } else {
                assert(self@.parents != 0 || self@.interior.len() != 0);
            }
        }
        b
    }

    /// Appends the encoding of this location to `out`.
    pub fn encode_to(&self, out: &mut Vec<u8>)
        ensures
            final(out)@ == old(out)@ + location_encoding(self@),
            self@.wf(),
    {
        proof {
            use_type_invariant(self);
        }
        let count: usize = self.interior.len();
        let ghost views = junction_views(self.interior@);
        let ghost head = seq![self.parents, count as u8];
        out.push(self.parents);
        out.push(count as u8);
        let mut i: usize = 0;
        proof {
            assert(views.take(0) =~= Seq::<JunctionView>::empty());
            assert(out@ =~= old(out)@ + head + junctions_encoding(views.take(0)));
        }
        while i < count
            invariant
                i <= count,
                count == self.interior.len(),
                views == junction_views(self.interior@),
                out@ == old(out)@ + head + junctions_encoding(views.take(i as int)),
            decreases count - i,
        {
            let ghost before = out@;
            self.interior[i].encode_to(Version::V1, out);
            proof {
                let upto = views.take(i + 1);
                assert(upto.drop_last() =~= views.take(i as int));
                assert(upto.last() == self.interior@[i as int]@);
                assert(before + junction_encoding(views[i as int], Version::V1) =~= old(out)@
                    + head + junctions_encoding(upto));
            }
            i = i + 1;
        }
        proof {
            assert(views.take(count as int) =~= views);
            assert(old(out)@ + head + junctions_encoding(views) =~= old(out)@ + (head
                + junctions_encoding(views)));
        }
    }
}

impl Clone for Location {
    fn clone(&self) -> (l: Location)
        ensures
            l@ == self@,
    {
        proof {
            use_type_invariant(self);
        }
        let mut interior: Vec<Junction> = Vec::new();
        let mut i: usize = 0;
        while i < self.interior.len()
            invariant
                i <= self.interior.len(),
                interior@ == self.interior@.take(i as int),
            decreases self.interior.len() - i,
        {
            interior.push(self.interior[i]);
            proof {
                assert(interior@ =~= self.interior@.take(i + 1));
            }
            i = i + 1;
        }
        proof {
            assert(self.interior@.take(self.interior.len() as int) =~= self.interior@);
        }
        Location { parents: self.parents, interior }
    }
}

/// Reads one location of the current format that starts at `start`; gives
/// the location and the position just after it.
pub(crate) fn read_location(bytes: &[u8], start: usize) -> (r: Result<
    (Location, usize),
    DecodeError,
>)
    requires
        start <= bytes.len(),
    ensures
        match location_parse(bytes@.skip(start as int)) {
            Ok((l, n)) => match r {
                Ok((x, end)) => x@ == l && end == start + n && end <= bytes.len(),
                Err(_) => false,
            },
            Err(e) => r == Err::<(Location, usize), DecodeError>(e),
        },
{
    reveal(location_parse);
    let ghost b = bytes@.skip(start as int);
    if bytes.len() - start < 2 {
        return Err(DecodeError::UnexpectedEnd);
    }
    let parents: u8 = bytes[start];
    let count: u8 = bytes[start + 1];
    assert(b[0] == parents && b[1] == count);
    if count > 8 {
        return Err(DecodeError::TooManyJunctions);
    }
    let ghost body = b.skip(2);
    let mut interior: Vec<Junction> = Vec::new();
    let mut pos: usize = start + 2;
    let mut i: u8 = 0;
    proof {
        assert(junction_views(interior@) =~= Seq::<JunctionView>::empty());
    }
    while i < count
        invariant
            i <= count <= 8,
            interior.len() == i,
            start + 2 <= pos <= bytes.len(),
            b == bytes@.skip(start as int),
            body == b.skip(2),
            b.len() >= 2,
            b[1] == count,
            junctions_parse(body, i as nat) == Ok::<(Seq<JunctionView>, nat), DecodeError>(
                (junction_views(interior@), (pos - start - 2) as nat),
            ),
        decreases count - i,
    {
        proof {
            assert(body.skip(pos - start - 2) =~= bytes@.skip(pos as int));
        }
        match read_junction(bytes, pos, Version::V1) {
            Err(e) => {
                proof {
                    assert(junctions_parse(body, (i + 1) as nat) == Err::<
                        (Seq<JunctionView>, nat),
                        DecodeError,
                    >(e));
                    lemma_junctions_parse_error(body, (i + 1) as nat, count as nat);
                    reveal(location_parse);
                }
                return Err(e);
            },
            Ok((j, end)) => {
                let ghost before = junction_views(interior@);
                interior.push(j);
                proof {
                    assert(junction_views(interior@) =~= before.push(j@));
                }
                pos = end;
                i = i + 1;
            },
        }
    }
    Ok((Location { parents, interior }, pos))
}

impl Clone for VersionedLocation {
    fn clone(&self) -> (v: VersionedLocation)
        ensures
            v@ == self@,
    {
        match self {
            VersionedLocation::V0(l) => VersionedLocation::V0(*l),
            VersionedLocation::V1(l) => VersionedLocation::V1(l.clone()),
        }
    }
}

impl VersionedLocation {
    /// The version of the format that this location is written in.
    pub fn version(&self) -> (v: Version)
        ensures
            v == self@.version(),
    {
        match self {
            VersionedLocation::V0(_) => Version::V0,
            VersionedLocation::V1(_) => Version::V1,
        }
    }

    /// Appends the encoding of this location to `out`.
    pub fn encode_to(&self, out: &mut Vec<u8>)
        ensures
            final(out)@ == old(out)@ + versioned_location_encoding(self@),
            self@.wf(),
    {
        match self {
            VersionedLocation::V0(l) => {
                out.push(0);
                let ghost mid = out@;
                l.encode_to(out);
                proof {
                    let body = legacy_location_encoding(l@);
                    assert(mid + body =~= old(out)@ + (seq![0u8] + body));
                }
            },
            VersionedLocation::V1(l) => {
                out.push(1);
                let ghost mid = out@;
                l.encode_to(out);
                proof {
                    let body = location_encoding(l@);
                    assert(mid + body =~= old(out)@ + (seq![1u8] + body));
                }
            },
        }
    }

    /// The encoding of this location.
    pub fn encode(&self) -> (bytes: Vec<u8>)
        ensures
            bytes@ == versioned_location_encoding(self@),
            self@.wf(),
    {
        let mut out: Vec<u8> = Vec::new();
        self.encode_to(&mut out);
        proof {
            assert(Seq::<u8>::empty() + versioned_location_encoding(self@)
                =~= versioned_location_encoding(self@));
        }
        out
    }

    /// Decodes `bytes` as one versioned location and nothing more.
    pub fn decode(bytes: &[u8]) -> (r: Result<VersionedLocation, DecodeError>)
        ensures
            match location_decoding(bytes@) {
                Ok(v) => match r {
                    Ok(x) => x@ == v && v.wf() && bytes@ == versioned_location_encoding(v),
                    Err(_) => false,
                },
                Err(e) => r == Err::<VersionedLocation, DecodeError>(e),
            },
    {
        proof {
            lemma_location_decoding_sound(bytes@);
            assert(bytes@.skip(0) =~= bytes@);
        }
        match read_versioned_location(bytes, 0) {
            Err(e) => Err(e),
            Ok((x, end)) => {
                if end < bytes.len() {
                    Err(DecodeError::TrailingBytes)
                } else {
                    Ok(x)
                }
            },
        }
    }

    /// Decodes `bytes` as one location written in the given version and
    /// nothing more. A tag of the other version is refused.
    pub fn decode_as(bytes: &[u8], version: Version) -> (r: Result<VersionedLocation, DecodeError>)
        ensures
            match location_decoding_as(bytes@, version) {
                Ok(v) => match r {
                    Ok(x) => x@ == v && v.wf() && v.version() == version && bytes@
                        == versioned_location_encoding(v),
                    Err(_) => false,
                },
                Err(e) => r == Err::<VersionedLocation, DecodeError>(e),
            },
    {
        if bytes.len() == 0 {
            return Err(DecodeError::UnexpectedEnd);
        }
        proof {
            reveal(versioned_location_parse);
        }
        match Version::from_tag(bytes[0]) {
            None => Err(DecodeError::UnknownTag),
            Some(found) => {
                let same = match (found, version) {
                    (Version::V0, Version::V0) => true,
                    (Version::V1, Version::V1) => true,
                    _ => false,
                };
                if same {
                    VersionedLocation::decode(bytes)
                } else {
                    Err(DecodeError::VersionMismatch)
                }
            },
        }
    }
}

/// Reads one versioned location that starts at `start`; gives the location
/// and the position just after it.
pub(crate) fn read_versioned_location(bytes: &[u8], start: usize) -> (r: Result<
    (VersionedLocation, usize),
    DecodeError,
>)
    requires
        start <= bytes.len(),
    ensures
        match versioned_location_parse(bytes@.skip(start as int)) {
            Ok((v, n)) => match r {
                Ok((x, end)) => x@ == v && end == start + n && end <= bytes.len(),
                Err(_) => false,
            },
            Err(e) => r == Err::<(VersionedLocation, usize), DecodeError>(e),
        },
{
    reveal(versioned_location_parse);
    let ghost b = bytes@.skip(start as int);
    if start >= bytes.len() {
        return Err(DecodeError::UnexpectedEnd);
    }
    assert(b[0] == bytes@[start as int]);
    proof {
        assert(b.skip(1) =~= bytes@.skip(start + 1));
    }
    match Version::from_tag(bytes[start]) {
        None => Err(DecodeError::UnknownTag),
        Some(Version::V0) => match read_legacy_location(bytes, start + 1) {
            Err(e) => Err(e),
            Ok((l, end)) => Ok((VersionedLocation::V0(l), end)),
        },
        Some(Version::V1) => match read_location(bytes, start + 1) {
            Err(e) => Err(e),
            Ok((l, end)) => Ok((VersionedLocation::V1(l), end)),
        },
    }
}

} // verus!
