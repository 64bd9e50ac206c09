//! The versioned binary layout of a published snapshot, as written into the
//! fixed 64 KiB shared-memory region: a header (format version, generation,
//! publish timestamp, reserved bytes), then the sinks, then the applications,
//! each string prefixed by its one-byte length.  Encoding fails loudly when
//! the snapshot would not fit the region instead of writing past it.
use vstd::bytes::{
    spec_u32_from_le_bytes, spec_u32_to_le_bytes, spec_u64_from_le_bytes, spec_u64_to_le_bytes,
    u32_from_le_bytes, u32_to_le_bytes, u64_from_le_bytes, u64_to_le_bytes,
    lemma_auto_spec_u32_to_from_le_bytes, lemma_auto_spec_u64_to_from_le_bytes,
};
use vstd::prelude::*;

verus! {

/// Size of the shared-memory region in bytes.
pub const SHM_SIZE: usize = 65536;

/// Format version stamped into the header.
pub const FORMAT_VERSION: u32 = 1;

/// A sink entry ready for the wire: the name already as UTF-8 bytes, the
/// volume as the raw bit pattern of the backend's normalized volume.
#[derive(Debug, Clone)]
pub struct WireSink {
    pub name: Vec<u8>,
    pub id: u32,
    pub volume: u32,
    pub muted: bool,
}

/// An application entry ready for the wire.
#[derive(Debug, Clone)]
pub struct WireApp {
    pub name: Vec<u8>,
    pub current_sink: Vec<u8>,
    pub active: bool,
}

/// A snapshot ready for the wire.
#[derive(Debug, Clone)]
pub struct WireSnapshot {
    pub generation: u64,
    pub timestamp_ms: u64,
    pub sinks: Vec<WireSink>,
    pub apps: Vec<WireApp>,
}

pub struct WireSinkV {
    pub name: Seq<u8>,
    pub id: u32,
    pub volume: u32,
    pub muted: bool,
}

pub struct WireAppV {
    pub name: Seq<u8>,
    pub current_sink: Seq<u8>,
    pub active: bool,
}

pub struct WireSnapshotV {
    pub generation: u64,
    pub timestamp_ms: u64,
    pub sinks: Seq<WireSinkV>,
    pub apps: Seq<WireAppV>,
}

impl View for WireSink {
    type V = WireSinkV;

    open spec fn view(&self) -> WireSinkV {
        WireSinkV { name: self.name@, id: self.id, volume: self.volume, muted: self.muted }
    }
}

impl View for WireApp {
    type V = WireAppV;

    open spec fn view(&self) -> WireAppV {
        WireAppV { name: self.name@, current_sink: self.current_sink@, active: self.active }
    }
}

impl View for WireSnapshot {
    type V = WireSnapshotV;

    open spec fn view(&self) -> WireSnapshotV {
        WireSnapshotV {
            generation: self.generation,
            timestamp_ms: self.timestamp_ms,
            sinks: self.sinks@.map_values(|s: WireSink| s@),
            apps: self.apps@.map_values(|a: WireApp| a@),
        }
    }
}

/// One byte for a flag.
pub open spec fn flag_byte(b: bool) -> u8 {
    if b {
        1u8
    } else {
        0u8
    }
}

/// The encoding of one sink entry.
pub open spec fn enc_sink(s: WireSinkV) -> Seq<u8> {
    seq![s.name.len() as u8] + s.name + spec_u32_to_le_bytes(s.id) + spec_u32_to_le_bytes(s.volume)
        + seq![flag_byte(s.muted)]
}

/// The encoding of a run of sink entries.
pub open spec fn enc_sinks(l: Seq<WireSinkV>) -> Seq<u8>
    decreases l.len(),
{
    if l.len() == 0 {
        Seq::empty()
    } else {
        enc_sink(l[0]) + enc_sinks(l.drop_first())
    }
}

/// The encoding of one application entry.
pub open spec fn enc_app(a: WireAppV) -> Seq<u8> {
    seq![a.name.len() as u8] + a.name + seq![a.current_sink.len() as u8] + a.current_sink
        + seq![flag_byte(a.active)]
}

/// The encoding of a run of application entries.
pub open spec fn enc_apps(l: Seq<WireAppV>) -> Seq<u8>
    decreases l.len(),
{
    if l.len() == 0 {
        Seq::empty()
    } else {
        enc_app(l[0]) + enc_apps(l.drop_first())
    }
}

/// The 36-byte header: version, generation, timestamp, 12 reserved zero
/// bytes, sink count.
pub open spec fn enc_header(s: WireSnapshotV) -> Seq<u8> {
    spec_u32_to_le_bytes(FORMAT_VERSION) + spec_u64_to_le_bytes(s.generation)
        + spec_u64_to_le_bytes(s.timestamp_ms) + Seq::new(12, |i: int| 0u8) + spec_u32_to_le_bytes(
        s.sinks.len() as u32,
    )
}

/// The full encoding of a snapshot.
pub open spec fn enc_snapshot(s: WireSnapshotV) -> Seq<u8> {
    enc_header(s) + enc_sinks(s.sinks) + spec_u32_to_le_bytes(s.apps.len() as u32) + enc_apps(
        s.apps,
    )
}

/// Structural bounds the layout can carry: every string fits its one-byte
/// length prefix, and the counts fit their four-byte fields.
pub open spec fn snapshot_wire_shaped(s: WireSnapshotV) -> bool {
    &&& forall|i: int| 0 <= i < s.sinks.len() ==> (#[trigger] s.sinks[i]).name.len() <= 255
    &&& forall|i: int|
        0 <= i < s.apps.len() ==> (#[trigger] s.apps[i]).name.len() <= 255
            && s.apps[i].current_sink.len() <= 255
    &&& s.sinks.len() <= u32::MAX
    &&& s.apps.len() <= u32::MAX
}

/// A snapshot the publisher may write: structurally sound and small enough
/// for the region.
pub open spec fn snapshot_wire_valid(s: WireSnapshotV) -> bool {
    snapshot_wire_shaped(s) && enc_snapshot(s).len() <= SHM_SIZE
}

/// Parse of one sink entry from the head of `b`: the entry and the bytes
/// it took.
pub open spec fn parse_sink(b: Seq<u8>) -> Option<(WireSinkV, int)> {
    if b.len() < 1 {
        None
    } else {
        let nl = b[0] as int;
        if b.len() < nl + 10 {
            None
        } else {
            Some(
                (
                    WireSinkV {
                        name: b.subrange(1, 1 + nl),
                        id: spec_u32_from_le_bytes(b.subrange(1 + nl, 5 + nl)),
                        volume: spec_u32_from_le_bytes(b.subrange(5 + nl, 9 + nl)),
                        muted: b[9 + nl] != 0,
                    },
                    nl + 10,
                ),
            )
        }
    }
}

/// Parse of a run of `n` sink entries.
pub open spec fn parse_sinks(b: Seq<u8>, n: nat) -> Option<(Seq<WireSinkV>, int)>
    decreases n,
{
    if n == 0 {
        Some((Seq::empty(), 0))
    } else {
        match parse_sink(b) {
            None => None,
            Some((s, c)) => match parse_sinks(b.skip(c), (n - 1) as nat) {
                None => None,
                Some((rest, c2)) => Some((seq![s] + rest, c + c2)),
            },
        }
    }
}

/// Parse of one application entry from the head of `b`.
pub open spec fn parse_app(b: Seq<u8>) -> Option<(WireAppV, int)> {
    if b.len() < 1 {
        None
    } else {
        let nl = b[0] as int;
        if b.len() < nl + 2 {
            None
        } else {
            let sl = b[1 + nl] as int;
            if b.len() < nl + sl + 3 {
                None
            } else {
                Some(
                    (
                        WireAppV {
                            name: b.subrange(1, 1 + nl),
                            current_sink: b.subrange(2 + nl, 2 + nl + sl),
                            active: b[2 + nl + sl] != 0,
                        },
                        nl + sl + 3,
                    ),
                )
            }
        }
    }
}

/// Parse of a run of `n` application entries.
pub open spec fn parse_apps(b: Seq<u8>, n: nat) -> Option<(Seq<WireAppV>, int)>
    decreases n,
{
    if n == 0 {
        Some((Seq::empty(), 0))
    } else {
        match parse_app(b) {
            None => None,
            Some((a, c)) => match parse_apps(b.skip(c), (n - 1) as nat) {
                None => None,
                Some((rest, c2)) => Some((seq![a] + rest, c + c2)),
            },
        }
    }
}

/// Parse of a whole snapshot.  Bytes past the encoded data are ignored, as
/// the shared-memory consumer ignores them: the region is fixed-size and
/// padded.
pub open spec fn parse_snapshot(b: Seq<u8>) -> Option<WireSnapshotV> {
    if b.len() < 36 {
        None
    } else if spec_u32_from_le_bytes(b.subrange(0, 4)) != FORMAT_VERSION {
        None
    } else {
        let generation = spec_u64_from_le_bytes(b.subrange(4, 12));
        let timestamp_ms = spec_u64_from_le_bytes(b.subrange(12, 20));
        let n_sinks = spec_u32_from_le_bytes(b.subrange(32, 36));
        match parse_sinks(b.skip(36), n_sinks as nat) {
            None => None,
            Some((sinks, c)) => {
                let rest = b.skip(36).skip(c);
                if rest.len() < 4 {
                    None
                } else {
                    match parse_apps(rest.skip(4), spec_u32_from_le_bytes(
                        rest.subrange(0, 4),
                    ) as nat) {
                        None => None,
                        Some((apps, _)) => Some(
                            WireSnapshotV { generation, timestamp_ms, sinks, apps },
                        ),
                    }
                }
            },
        }
    }
}

/// Encoding a concatenation of runs encodes each run in turn.
pub proof fn lemma_enc_sinks_append(a: Seq<WireSinkV>, b: Seq<WireSinkV>)
    ensures
        enc_sinks(a + b) == enc_sinks(a) + enc_sinks(b),
    decreases a.len(),
{
    if a.len() == 0 {
        assert(a + b =~= b);
        assert(enc_sinks(a) + enc_sinks(b) =~= enc_sinks(b));
    } else {
        assert((a + b).drop_first() =~= a.drop_first() + b);
        lemma_enc_sinks_append(a.drop_first(), b);
        assert(enc_sink((a + b)[0]) + (enc_sinks(a.drop_first()) + enc_sinks(b)) =~= (enc_sink(
            a[0],
        ) + enc_sinks(a.drop_first())) + enc_sinks(b));
    }
}

/// Encoding a concatenation of runs encodes each run in turn.
pub proof fn lemma_enc_apps_append(a: Seq<WireAppV>, b: Seq<WireAppV>)
    ensures
        enc_apps(a + b) == enc_apps(a) + enc_apps(b),
    decreases a.len(),
{
    if a.len() == 0 {
        assert(a + b =~= b);
        assert(enc_apps(a) + enc_apps(b) =~= enc_apps(b));
    } else {
        assert((a + b).drop_first() =~= a.drop_first() + b);
        lemma_enc_apps_append(a.drop_first(), b);
        assert(enc_app((a + b)[0]) + (enc_apps(a.drop_first()) + enc_apps(b)) =~= (enc_app(a[0])
            + enc_apps(a.drop_first())) + enc_apps(b));
    }
}

/// Parsing the encoding of one sink entry, whatever follows it, yields that
/// entry back.
proof fn lemma_parse_sink_of_enc(s: WireSinkV, rest: Seq<u8>)
    requires
        s.name.len() <= 255,
    ensures
        parse_sink(enc_sink(s) + rest) == Some((s, enc_sink(s).len() as int)),
{
    lemma_auto_spec_u32_to_from_le_bytes();
    let b = enc_sink(s) + rest;
    let nl = s.name.len() as int;
    assert(b[0] == nl as u8);
    assert(b.subrange(1, 1 + nl) =~= s.name);
    assert(b.subrange(1 + nl, 5 + nl) =~= spec_u32_to_le_bytes(s.id));
    assert(b.subrange(5 + nl, 9 + nl) =~= spec_u32_to_le_bytes(s.volume));
    assert(b[9 + nl] == flag_byte(s.muted));
    let parsed = parse_sink(b)->Some_0.0;
    assert(parsed.name == s.name && parsed.id == s.id && parsed.volume == s.volume
        && parsed.muted == s.muted);
}

/// Parsing the encoding of one application entry, whatever follows it,
/// yields that entry back.
proof fn lemma_parse_app_of_enc(a: WireAppV, rest: Seq<u8>)
    requires
        a.name.len() <= 255,
        a.current_sink.len() <= 255,
    ensures
        parse_app(enc_app(a) + rest) == Some((a, enc_app(a).len() as int)),
{
    let b = enc_app(a) + rest;
    let nl = a.name.len() as int;
    let sl = a.current_sink.len() as int;
    assert(b[0] == nl as u8);
    assert(b[1 + nl] == sl as u8);
    assert(b.subrange(1, 1 + nl) =~= a.name);
    assert(b.subrange(2 + nl, 2 + nl + sl) =~= a.current_sink);
    assert(b[2 + nl + sl] == flag_byte(a.active));
    let parsed = parse_app(b)->Some_0.0;
    assert(parsed.name == a.name && parsed.current_sink == a.current_sink && parsed.active
        == a.active);
}

/// Parsing the encoding of a run of sink entries, whatever follows it,
/// yields the run back.
proof fn lemma_parse_sinks_of_enc(l: Seq<WireSinkV>, rest: Seq<u8>)
    requires
        forall|i: int| 0 <= i < l.len() ==> (#[trigger] l[i]).name.len() <= 255,
    ensures
        parse_sinks(enc_sinks(l) + rest, l.len()) == Some((l, enc_sinks(l).len() as int)),
    decreases l.len(),
{
    if l.len() == 0 {
        assert(enc_sinks(l) + rest =~= rest);
        assert(parse_sinks(rest, 0) == Some((Seq::<WireSinkV>::empty(), 0int)));
        assert(l =~= Seq::<WireSinkV>::empty());
    } else {
        let b = enc_sinks(l) + rest;
        assert(b =~= enc_sink(l[0]) + (enc_sinks(l.drop_first()) + rest));
        lemma_parse_sink_of_enc(l[0], enc_sinks(l.drop_first()) + rest);
        let c0 = enc_sink(l[0]).len() as int;
        assert(b.skip(c0) =~= enc_sinks(l.drop_first()) + rest);
        lemma_parse_sinks_of_enc(l.drop_first(), rest);
        assert(seq![l[0]] + l.drop_first() =~= l);
    }
}

/// Parsing the encoding of a run of application entries, whatever follows
/// it, yields the run back.
proof fn lemma_parse_apps_of_enc(l: Seq<WireAppV>, rest: Seq<u8>)
    requires
        forall|i: int|
            0 <= i < l.len() ==> (#[trigger] l[i]).name.len() <= 255 && l[i].current_sink.len()
                <= 255,
    ensures
        parse_apps(enc_apps(l) + rest, l.len()) == Some((l, enc_apps(l).len() as int)),
    decreases l.len(),
{
    if l.len() == 0 {
        assert(enc_apps(l) + rest =~= rest);
        assert(parse_apps(rest, 0) == Some((Seq::<WireAppV>::empty(), 0int)));
        assert(l =~= Seq::<WireAppV>::empty());
    } else {
        let b = enc_apps(l) + rest;
        assert(b =~= enc_app(l[0]) + (enc_apps(l.drop_first()) + rest));
        lemma_parse_app_of_enc(l[0], enc_apps(l.drop_first()) + rest);
        let c0 = enc_app(l[0]).len() as int;
        assert(b.skip(c0) =~= enc_apps(l.drop_first()) + rest);
        lemma_parse_apps_of_enc(l.drop_first(), rest);
        assert(seq![l[0]] + l.drop_first() =~= l);
    }
}

/// Round trip through the wire layout: parsing the encoding of any
/// structurally sound snapshot, whatever trailing bytes follow it in the
/// region, reproduces the snapshot exactly - names, volumes, mute flags,
/// current-sink assignments and active flags included.
pub proof fn lemma_parse_snapshot_of_enc(s: WireSnapshotV, rest: Seq<u8>)
    requires
        snapshot_wire_shaped(s),
    ensures
        parse_snapshot(enc_snapshot(s) + rest) == Some(s),
{
    lemma_auto_spec_u32_to_from_le_bytes();
    lemma_auto_spec_u64_to_from_le_bytes();
    let b = enc_snapshot(s) + rest;
    assert(b.subrange(0, 4) =~= spec_u32_to_le_bytes(FORMAT_VERSION));
    assert(b.subrange(4, 12) =~= spec_u64_to_le_bytes(s.generation));
    assert(b.subrange(12, 20) =~= spec_u64_to_le_bytes(s.timestamp_ms));
    assert(b.subrange(32, 36) =~= spec_u32_to_le_bytes(s.sinks.len() as u32));
    let tail = enc_sinks(s.sinks) + (spec_u32_to_le_bytes(s.apps.len() as u32) + (enc_apps(s.apps)
        + rest));
    assert(b.skip(36) =~= tail);
    lemma_parse_sinks_of_enc(
        s.sinks,
        spec_u32_to_le_bytes(s.apps.len() as u32) + (enc_apps(s.apps) + rest),
    );
    let c = enc_sinks(s.sinks).len() as int;
    let after_sinks = b.skip(36).skip(c);
    assert(after_sinks =~= spec_u32_to_le_bytes(s.apps.len() as u32) + (enc_apps(s.apps) + rest));
    assert(after_sinks.subrange(0, 4) =~= spec_u32_to_le_bytes(s.apps.len() as u32));
    assert(after_sinks.skip(4) =~= enc_apps(s.apps) + rest);
    lemma_parse_apps_of_enc(s.apps, rest);
    let parsed = parse_snapshot(b)->Some_0;
    assert(parsed.generation == s.generation && parsed.timestamp_ms == s.timestamp_ms
        && parsed.sinks == s.sinks && parsed.apps == s.apps);
}

/// Reads a little-endian `u32` at `pos`.
fn read_u32(bytes: &Vec<u8>, pos: usize) -> (r: u32)
    requires
        pos + 4 <= bytes@.len(),
    ensures
        r == spec_u32_from_le_bytes(bytes@.subrange(pos as int, pos as int + 4)),
{
    let l = bytes.len();
    assert(pos + 4 <= l);
    let s = vstd::slice::slice_subrange(bytes.as_slice(), pos, pos + 4);
    u32_from_le_bytes(s)
}

/// Reads a little-endian `u64` at `pos`.
fn read_u64(bytes: &Vec<u8>, pos: usize) -> (r: u64)
    requires
        pos + 8 <= bytes@.len(),
    ensures
        r == spec_u64_from_le_bytes(bytes@.subrange(pos as int, pos as int + 8)),
{
    let l = bytes.len();
    assert(pos + 8 <= l);
    let s = vstd::slice::slice_subrange(bytes.as_slice(), pos, pos + 8);
    u64_from_le_bytes(s)
}

/// Copies `bytes[pos .. pos + n]` into a fresh vector.
fn copy_range(bytes: &Vec<u8>, pos: usize, n: usize) -> (r: Vec<u8>)
    requires
        pos + n <= bytes@.len(),
    ensures
        r@ == bytes@.subrange(pos as int, pos as int + n as int),
{
    let mut out: Vec<u8> = Vec::new();
    let mut j: usize = 0;
    while j < n
        invariant
            j <= n,
            pos + n <= bytes@.len(),
            out@ =~= bytes@.subrange(pos as int, pos as int + j as int),
        decreases n - j,
    {
        let l = bytes.len();
        assert(pos + j < l);
        out.push(bytes[pos + j]);
        j = j + 1;
    }
    out
}

/// Decodes one sink entry at `pos`, mirroring [`parse_sink`].
fn decode_sink(bytes: &Vec<u8>, pos: usize) -> (r: Option<(WireSink, usize)>)
    requires
        pos <= bytes@.len(),
    ensures
        match r {
            Some(p) => pos < p.1 <= bytes@.len() && parse_sink(bytes@.skip(pos as int)) == Some(
                (p.0@, p.1 - pos),
            ),
            None => parse_sink(bytes@.skip(pos as int)) is None,
        },
{
    let ghost t = bytes@.skip(pos as int);
    if bytes.len() - pos < 1 {
        return None;
    }
    let nl = bytes[pos] as usize;
    if bytes.len() - pos < nl + 10 {
        return None;
    }
    let name = copy_range(bytes, pos + 1, nl);
    let id = read_u32(bytes, pos + 1 + nl);
    let volume = read_u32(bytes, pos + 5 + nl);
    let muted = bytes[pos + 9 + nl] != 0;
    proof {
        assert(t[0] == bytes@[pos as int]);
        assert(t.subrange(1, 1 + nl as int) =~= bytes@.subrange(
            pos as int + 1,
            pos as int + 1 + nl as int,
        ));
        assert(t.subrange(1 + nl as int, 5 + nl as int) =~= bytes@.subrange(
            pos as int + 1 + nl as int,
            pos as int + 5 + nl as int,
        ));
        assert(t.subrange(5 + nl as int, 9 + nl as int) =~= bytes@.subrange(
            pos as int + 5 + nl as int,
            pos as int + 9 + nl as int,
        ));
        assert(t[9 + nl as int] == bytes@[pos as int + 9 + nl as int]);
    }
    Some((WireSink { name, id, volume, muted }, pos + nl + 10))
}

/// Decodes one application entry at `pos`, mirroring [`parse_app`].
fn decode_app(bytes: &Vec<u8>, pos: usize) -> (r: Option<(WireApp, usize)>)
    requires
        pos <= bytes@.len(),
    ensures
        match r {
            Some(p) => pos < p.1 <= bytes@.len() && parse_app(bytes@.skip(pos as int)) == Some(
                (p.0@, p.1 - pos),
            ),
            None => parse_app(bytes@.skip(pos as int)) is None,
        },
{
    let ghost t = bytes@.skip(pos as int);
    if bytes.len() - pos < 1 {
        return None;
    }
    let nl = bytes[pos] as usize;
    if bytes.len() - pos < nl + 2 {
        return None;
    }
    let sl = bytes[pos + 1 + nl] as usize;
    if bytes.len() - pos < nl + sl + 3 {
        return None;
    }
    let name = copy_range(bytes, pos + 1, nl);
    let current_sink = copy_range(bytes, pos + 2 + nl, sl);
    let active = bytes[pos + 2 + nl + sl] != 0;
    proof {
        assert(t[0] == bytes@[pos as int]);
        assert(t[1 + nl as int] == bytes@[pos as int + 1 + nl as int]);
        assert(t.subrange(1, 1 + nl as int) =~= bytes@.subrange(
            pos as int + 1,
            pos as int + 1 + nl as int,
        ));
        assert(t.subrange(2 + nl as int, 2 + nl as int + sl as int) =~= bytes@.subrange(
            pos as int + 2 + nl as int,
            pos as int + 2 + nl as int + sl as int,
        ));
        assert(t[2 + nl as int + sl as int] == bytes@[pos as int + 2 + nl as int + sl as int]);
    }
    Some((WireApp { name, current_sink, active }, pos + nl + sl + 3))
}

/// Decodes a run of `n` sink entries at `pos`, mirroring [`parse_sinks`].
fn decode_sinks(bytes: &Vec<u8>, pos: usize, n: u32) -> (r: Option<(Vec<WireSink>, usize)>)
    requires
        pos <= bytes@.len(),
    ensures
        match r {
            Some(p) => pos <= p.1 <= bytes@.len() && parse_sinks(bytes@.skip(pos as int), n as nat)
                == Some((p.0@.map_values(|x: WireSink| x@), p.1 - pos)),
            None => parse_sinks(bytes@.skip(pos as int), n as nat) is None,
        },
    decreases n,
{
    if n == 0 {
        let out: Vec<WireSink> = Vec::new();
        proof {
            assert(out@.map_values(|x: WireSink| x@) =~= Seq::<WireSinkV>::empty());
        }
        return Some((out, pos));
    }
    match decode_sink(bytes, pos) {
        None => None,
        Some((head, mid)) => {
            proof {
                assert(bytes@.skip(pos as int).skip(mid - pos) =~= bytes@.skip(mid as int));
            }
            match decode_sinks(bytes, mid, n - 1) {
                None => None,
                Some((rest, endpos)) => {
                    let mut out: Vec<WireSink> = Vec::new();
                    out.push(head);
                    let mut rest = rest;
                    out.append(&mut rest);
                    proof {
                        assert(out@.map_values(|x: WireSink| x@) =~= seq![out@[0]@]
                            + out@.skip(1).map_values(|x: WireSink| x@));
                    }
                    Some((out, endpos))
                },
            }
        },
    }
}

/// Decodes a run of `n` application entries at `pos`, mirroring [`parse_apps`].
fn decode_apps(bytes: &Vec<u8>, pos: usize, n: u32) -> (r: Option<(Vec<WireApp>, usize)>)
    requires
        pos <= bytes@.len(),
    ensures
        match r {
            Some(p) => pos <= p.1 <= bytes@.len() && parse_apps(bytes@.skip(pos as int), n as nat)
                == Some((p.0@.map_values(|x: WireApp| x@), p.1 - pos)),
            None => parse_apps(bytes@.skip(pos as int), n as nat) is None,
        },
    decreases n,
{
    if n == 0 {
        let out: Vec<WireApp> = Vec::new();
        proof {
            assert(out@.map_values(|x: WireApp| x@) =~= Seq::<WireAppV>::empty());
        }
        return Some((out, pos));
    }
    match decode_app(bytes, pos) {
        None => None,
        Some((head, mid)) => {
            proof {
                assert(bytes@.skip(pos as int).skip(mid - pos) =~= bytes@.skip(mid as int));
            }
            match decode_apps(bytes, mid, n - 1) {
                None => None,
                Some((rest, endpos)) => {
                    let mut out: Vec<WireApp> = Vec::new();
                    out.push(head);
                    let mut rest = rest;
                    out.append(&mut rest);
                    proof {
                        assert(out@.map_values(|x: WireApp| x@) =~= seq![out@[0]@]
                            + out@.skip(1).map_values(|x: WireApp| x@));
                    }
                    Some((out, endpos))
                },
            }
        },
    }
}

/// Encodes a snapshot into the wire layout.  Returns `None`, writing
/// nothing, when the snapshot cannot be carried: a name longer than its
/// one-byte length prefix, a count past its four-byte field, or an encoding
/// larger than the region.
#[verifier::loop_isolation(false)]
#[verifier::rlimit(100)]
#[verifier::spinoff_prover]
pub fn encode_snapshot(s: &WireSnapshot) -> (r: Option<Vec<u8>>)
    ensures
        match r {
            Some(b) => snapshot_wire_valid(s@) && b@ == enc_snapshot(s@) && b@.len() <= SHM_SIZE,
            None => !snapshot_wire_valid(s@),
        },
{
    let ghost sv = s@;
    proof {
        lemma_auto_spec_u32_to_from_le_bytes();
        lemma_auto_spec_u64_to_from_le_bytes();
    }
    if s.sinks.len() > (u32::MAX as usize) || s.apps.len() > (u32::MAX as usize) {
        return None;
    }
    let mut out: Vec<u8> = Vec::new();
    let mut tmp = u32_to_le_bytes(FORMAT_VERSION);
    out.append(&mut tmp);
    let mut tmp = u64_to_le_bytes(s.generation);
    out.append(&mut tmp);
    let mut tmp = u64_to_le_bytes(s.timestamp_ms);
    out.append(&mut tmp);
    let mut k: usize = 0;
    while k < 12
        invariant
            k <= 12,
            out@ =~= spec_u32_to_le_bytes(FORMAT_VERSION) + spec_u64_to_le_bytes(sv.generation)
                + spec_u64_to_le_bytes(sv.timestamp_ms) + Seq::new(k as nat, |i: int| 0u8),
        decreases 12 - k,
    {
        out.push(0u8);
        k = k + 1;
        proof {
            assert(Seq::new(k as nat, |i: int| 0u8) =~= Seq::new(
                (k - 1) as nat,
                |i: int| 0u8,
            ).push(0u8));
        }
    }
    let mut tmp = u32_to_le_bytes(s.sinks.len() as u32);
    out.append(&mut tmp);
    proof {
        assert(out@ =~= enc_header(sv));
    }
    let mut i: usize = 0;
    while i < s.sinks.len()
        invariant
            i <= s.sinks.len(),
            out@ =~= enc_header(sv) + enc_sinks(sv.sinks.take(i as int)),
            out@.len() <= SHM_SIZE,
            forall|j: int| 0 <= j < i ==> (#[trigger] sv.sinks[j]).name.len() <= 255,
        decreases s.sinks.len() - i,
    {
        let sink = &s.sinks[i];
        proof {
            assert(sv.sinks[i as int] == s.sinks@[i as int]@);
        }
        if sink.name.len() > 255 {
            return None;
        }
        let entry_len = sink.name.len() + 10;
        proof {
            assert(sv.sinks.take(i as int) + sv.sinks.skip(i as int) =~= sv.sinks);
            lemma_enc_sinks_append(sv.sinks.take(i as int), sv.sinks.skip(i as int));
            assert(sv.sinks.skip(i as int)[0] == sv.sinks[i as int]);
            assert(enc_snapshot(sv).len() >= out@.len() + entry_len);
        }
        if SHM_SIZE - out.len() < entry_len {
            return None;
        }
        let ghost base = out@;
        out.push(sink.name.len() as u8);
        let mut j: usize = 0;
        while j < sink.name.len()
            invariant
                j <= sink.name@.len(),
                out@ =~= base + seq![sink.name@.len() as u8] + sink.name@.take(j as int),
            decreases sink.name@.len() - j,
        {
            out.push(sink.name[j]);
            j = j + 1;
            proof {
                assert(sink.name@.take(j as int) =~= sink.name@.take(j as int - 1).push(
                    sink.name@[j as int - 1],
                ));
            }
        }
        let mut tmp = u32_to_le_bytes(sink.id);
        out.append(&mut tmp);
        let mut tmp = u32_to_le_bytes(sink.volume);
        out.append(&mut tmp);
        out.push(if sink.muted { 1u8 } else { 0u8 });
        i = i + 1;
        proof {
            assert(sink.name@.take(sink.name@.len() as int) =~= sink.name@);
            lemma_enc_sinks_append(sv.sinks.take(i as int - 1), seq![sv.sinks[i as int - 1]]);
            assert(sv.sinks.take(i as int - 1) + seq![sv.sinks[i as int - 1]] =~= sv.sinks.take(
                i as int,
            ));
            let single = seq![sv.sinks[i as int - 1]];
            assert(single.drop_first() =~= Seq::<WireSinkV>::empty());
            assert(enc_sinks(single) == enc_sink(single[0]) + enc_sinks(single.drop_first()));
            assert(enc_sinks(Seq::<WireSinkV>::empty()) == Seq::<u8>::empty());
            assert(enc_sinks(single) =~= enc_sink(sv.sinks[i as int - 1]));
            assert(out@ =~= enc_header(sv) + enc_sinks(sv.sinks.take(i as int)));
        }
    }
    proof {
        assert(sv.sinks.take(sv.sinks.len() as int) =~= sv.sinks);
        assert(enc_snapshot(sv).len() >= out@.len() + 4);
    }
    if SHM_SIZE - out.len() < 4 {
        return None;
    }
    let mut tmp = u32_to_le_bytes(s.apps.len() as u32);
    out.append(&mut tmp);
    let ghost apps_base = out@;
    let mut i: usize = 0;
    while i < s.apps.len()
        invariant
            i <= s.apps.len(),
            out@ =~= apps_base + enc_apps(sv.apps.take(i as int)),
            out@.len() <= SHM_SIZE,
            forall|j: int|
                0 <= j < i ==> (#[trigger] sv.apps[j]).name.len() <= 255
                    && sv.apps[j].current_sink.len() <= 255,
        decreases s.apps.len() - i,
    {
        let app = &s.apps[i];
        proof {
            assert(sv.apps[i as int] == s.apps@[i as int]@);
        }
        if app.name.len() > 255 || app.current_sink.len() > 255 {
            return None;
        }
        let entry_len = app.name.len() + app.current_sink.len() + 3;
        proof {
            assert(sv.apps.take(i as int) + sv.apps.skip(i as int) =~= sv.apps);
            lemma_enc_apps_append(sv.apps.take(i as int), sv.apps.skip(i as int));
            assert(sv.apps.skip(i as int)[0] == sv.apps[i as int]);
            assert(enc_snapshot(sv).len() >= out@.len() + entry_len);
        }
        if SHM_SIZE - out.len() < entry_len {
            return None;
        }
        let ghost base = out@;
        out.push(app.name.len() as u8);
        let mut j: usize = 0;
        while j < app.name.len()
            invariant
                j <= app.name@.len(),
                out@ =~= base + seq![app.name@.len() as u8] + app.name@.take(j as int),
            decreases app.name@.len() - j,
        {
            out.push(app.name[j]);
            j = j + 1;
            proof {
                assert(app.name@.take(j as int) =~= app.name@.take(j as int - 1).push(
                    app.name@[j as int - 1],
                ));
            }
        }
        proof {
            assert(app.name@.take(app.name@.len() as int) =~= app.name@);
        }
        let ghost base2 = out@;
        out.push(app.current_sink.len() as u8);
        let mut j: usize = 0;
        while j < app.current_sink.len()
            invariant
                j <= app.current_sink@.len(),
                out@ =~= base2 + seq![app.current_sink@.len() as u8] + app.current_sink@.take(
                    j as int,
                ),
            decreases app.current_sink@.len() - j,
        {
            out.push(app.current_sink[j]);
            j = j + 1;
            proof {
                assert(app.current_sink@.take(j as int) =~= app.current_sink@.take(
                    j as int - 1,
                ).push(app.current_sink@[j as int - 1]));
            }
        }
        out.push(if app.active { 1u8 } else { 0u8 });
        i = i + 1;
        proof {
            assert(app.current_sink@.take(app.current_sink@.len() as int) =~= app.current_sink@);
            lemma_enc_apps_append(sv.apps.take(i as int - 1), seq![sv.apps[i as int - 1]]);
            assert(sv.apps.take(i as int - 1) + seq![sv.apps[i as int - 1]] =~= sv.apps.take(
                i as int,
            ));
            let single = seq![sv.apps[i as int - 1]];
            assert(single.drop_first() =~= Seq::<WireAppV>::empty());
            assert(enc_apps(single) == enc_app(single[0]) + enc_apps(single.drop_first()));
            assert(enc_apps(Seq::<WireAppV>::empty()) == Seq::<u8>::empty());
            assert(enc_apps(single) =~= enc_app(sv.apps[i as int - 1]));
            assert(out@ =~= apps_base + enc_apps(sv.apps.take(i as int)));
        }
    }
    proof {
        assert(sv.apps.take(sv.apps.len() as int) =~= sv.apps);
        assert(out@ =~= enc_snapshot(sv));
    }
    Some(out)
}

/// Decodes a snapshot from the head of the region's bytes, mirroring
/// [`parse_snapshot`]; trailing padding is ignored.
pub fn decode_snapshot(bytes: &Vec<u8>) -> (r: Option<WireSnapshot>)
    ensures
        match r {
            Some(w) => parse_snapshot(bytes@) == Some(w@),
            None => parse_snapshot(bytes@) is None,
        },
{
    if bytes.len() < 36 {
        return None;
    }
    let version = read_u32(bytes, 0);
    if version != FORMAT_VERSION {
        return None;
    }
    let generation = read_u64(bytes, 4);
    let timestamp_ms = read_u64(bytes, 12);
    let n_sinks = read_u32(bytes, 32);
    match decode_sinks(bytes, 36, n_sinks) {
        None => None,
        Some((sinks, pos)) => {
            proof {
                assert(bytes@.skip(36).skip(pos - 36) =~= bytes@.skip(pos as int));
            }
            if bytes.len() - pos < 4 {
                return None;
            }
            let n_apps = read_u32(bytes, pos);
            proof {
                assert(bytes@.skip(pos as int).subrange(0, 4) =~= bytes@.subrange(
                    pos as int,
                    pos as int + 4,
                ));
                assert(bytes@.skip(pos as int).skip(4) =~= bytes@.skip(pos as int + 4));
            }
            match decode_apps(bytes, pos + 4, n_apps) {
                None => None,
                Some((apps, _)) => Some(WireSnapshot { generation, timestamp_ms, sinks, apps }),
            }
        },
    }
}

/// Law: encoding a snapshot that fits the region and decoding the result
/// reproduces it exactly.
pub proof fn lemma_encode_decode_round_trip(s: WireSnapshotV)
    requires
        snapshot_wire_valid(s),
    ensures
        parse_snapshot(enc_snapshot(s)) == Some(s),
{
    lemma_parse_snapshot_of_enc(s, Seq::empty());
    assert(enc_snapshot(s) + Seq::<u8>::empty() =~= enc_snapshot(s));
}

} // verus!
