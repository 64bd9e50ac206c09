//! Parsers for backend introspection: the text the audio tooling prints
//! when listing sinks and sink inputs.  Ground truth about which streams
//! exist and where they are connected is re-derived from this text, never
//! trusted from the cache.  The callers run the tools; everything that
//! reads their output is here and verified.
use vstd::prelude::*;
use vstd::string::StringSliceAdditionalSpecFns;

use crate::bytescan::{
    after_last, after_last_byte, all_digits, ascii_lower_spec, bytes_eq, concat2, concat3, contains_bytes,
    contains_seq, dec_value, dec_digits, fields_spec, find_byte_from, find_seq, format_u32,
    is_dec_u32, lines_spec, match_at, parse_u32_dec, split_fields, split_lines, split_on,
    split_on_spec, strip_suffix_all, strip_suffix_all_spec, to_ascii_lower, trim_ascii, trim_spec,
};

verus! {

/// Whether a line of `pactl list sinks short` names this sink: the second
/// field is the name and the first parses as the sink's identifier.
pub open spec fn short_line_matches(line: Seq<u8>, name: Seq<u8>) -> bool {
    let f = fields_spec(line);
    f.len() >= 2 && f[1] == name && is_dec_u32(f[0])
}

/// The identifier on the first matching line of a short sink listing.
pub open spec fn sink_id_from_lines(ls: Seq<Seq<u8>>, name: Seq<u8>) -> Option<u32>
    decreases ls.len(),
{
    if ls.len() == 0 {
        None
    } else if short_line_matches(ls[0], name) {
        Some(dec_value(fields_spec(ls[0])[0]) as u32)
    } else {
        sink_id_from_lines(ls.drop_first(), name)
    }
}

/// Finds the backend identifier of the sink with this name in the output
/// of a short sink listing (`id<TAB>name ...` per line).
pub fn find_sink_id_short(output: &[u8], sink_name: &[u8]) -> (r: Option<u32>)
    ensures
        r == sink_id_from_lines(lines_spec(output@), sink_name@),
{
    let lines = split_lines(output);
    let ghost lsv = lines@.map_values(|v: Vec<u8>| v@);
    let mut i: usize = 0;
    proof {
        assert(lsv.skip(0) =~= lsv);
    }
    while i < lines.len()
        invariant
            i <= lines@.len(),
            lsv == lines@.map_values(|v: Vec<u8>| v@),
            lsv == lines_spec(output@),
            sink_id_from_lines(lines_spec(output@), sink_name@) == sink_id_from_lines(
                lsv.skip(i as int),
                sink_name@,
            ),
        decreases lines@.len() - i,
    {
        let fields = split_fields(lines[i].as_slice());
        proof {
            assert(lsv.skip(i as int)[0] == lsv[i as int]);
            assert(lsv.skip(i as int).drop_first() =~= lsv.skip(i as int + 1));
            assert(fields@.map_values(|v: Vec<u8>| v@) == fields_spec(lsv[i as int]));
        }
        if fields.len() >= 2 && bytes_eq(fields[1].as_slice(), sink_name) {
            proof {
                assert(fields@.map_values(|v: Vec<u8>| v@)[0] == fields@[0]@);
                assert(fields@.map_values(|v: Vec<u8>| v@)[1] == fields@[1]@);
            }
            match parse_u32_dec(fields[0].as_slice()) {
                Some(id) => {
                    return Some(id);
                },
                None => {},
            }
        }
        i = i + 1;
    }
    proof {
        assert(lsv.skip(lsv.len() as int) =~= Seq::<Seq<u8>>::empty());
    }
    None
}

/// The property line that marks a sink's loopback stream in a sink-input
/// listing.
pub open spec fn loopback_needle(sink: Seq<u8>) -> Seq<u8> {
    "node.name = \"".spec_bytes() + sink + "_to_Speaker\"".spec_bytes()
}

/// The stream identifier on the first line of a sink-input block, if that
/// line starts with one.
pub open spec fn block_stream_id(block: Seq<u8>) -> Option<u32> {
    let ls = lines_spec(block);
    if ls.len() == 0 {
        None
    } else {
        let fs = fields_spec(ls[0]);
        if fs.len() > 0 && is_dec_u32(fs[0]) {
            Some(dec_value(fs[0]) as u32)
        } else {
            None
        }
    }
}

/// The stream identifier of the first sink-input block that holds the
/// needle and opens with a parsable identifier.
pub open spec fn loopback_id_from_blocks(bs: Seq<Seq<u8>>, needle: Seq<u8>) -> Option<u32>
    decreases bs.len(),
{
    if bs.len() == 0 {
        None
    } else if contains_seq(bs[0], needle) && block_stream_id(bs[0]) is Some {
        block_stream_id(bs[0])
    } else {
        loopback_id_from_blocks(bs.drop_first(), needle)
    }
}

/// Finds the loopback stream (`<sink>_to_Speaker`) of this sink in the
/// output of a sink-input listing, split into `Sink Input #` blocks.
pub fn find_loopback_input_id(output: &[u8], sink_name: &[u8]) -> (r: Option<u32>)
    ensures
        r == loopback_id_from_blocks(
            split_on_spec(output@, "Sink Input #".spec_bytes()),
            loopback_needle(sink_name@),
        ),
{
    let needle = concat3("node.name = \"".as_bytes(), sink_name, "_to_Speaker\"".as_bytes());
    let blocks = split_on(output, "Sink Input #".as_bytes());
    let ghost bsv = blocks@.map_values(|v: Vec<u8>| v@);
    let mut i: usize = 0;
    proof {
        assert(bsv.skip(0) =~= bsv);
    }
    while i < blocks.len()
        invariant
            i <= blocks@.len(),
            needle@ == loopback_needle(sink_name@),
            bsv == blocks@.map_values(|v: Vec<u8>| v@),
            bsv == split_on_spec(output@, "Sink Input #".spec_bytes()),
            loopback_id_from_blocks(
                split_on_spec(output@, "Sink Input #".spec_bytes()),
                loopback_needle(sink_name@),
            ) == loopback_id_from_blocks(bsv.skip(i as int), loopback_needle(sink_name@)),
        decreases blocks@.len() - i,
    {
        proof {
            assert(bsv.skip(i as int)[0] == bsv[i as int]);
            assert(bsv.skip(i as int).drop_first() =~= bsv.skip(i as int + 1));
        }
        if contains_bytes(blocks[i].as_slice(), needle.as_slice()) {
            match block_stream_id_exec(blocks[i].as_slice()) {
                Some(id) => {
                    return Some(id);
                },
                None => {},
            }
        }
        i = i + 1;
    }
    proof {
        assert(bsv.skip(bsv.len() as int) =~= Seq::<Seq<u8>>::empty());
    }
    None
}

/// Reads the stream identifier off the first line of a block.
fn block_stream_id_exec(block: &[u8]) -> (r: Option<u32>)
    ensures
        r == block_stream_id(block@),
{
    let lines = split_lines(block);
    if lines.len() == 0 {
        return None;
    }
    let fields = split_fields(lines[0].as_slice());
    proof {
        assert(lines@.map_values(|v: Vec<u8>| v@)[0] == lines@[0]@);
        assert(fields@.map_values(|v: Vec<u8>| v@) == fields_spec(lines@[0]@));
    }
    if fields.len() == 0 {
        return None;
    }
    proof {
        assert(fields@.map_values(|v: Vec<u8>| v@)[0] == fields@[0]@);
    }
    parse_u32_dec(fields[0].as_slice())
}

/// What a wpctl volume query reported: the volume token after the colon
/// (the tool's `1.0` when the token is missing) and whether the sink is
/// muted.  `None` when the output has no colon-separated value at all.
pub open spec fn wpctl_volume_of(out: Seq<u8>) -> Option<(Seq<u8>, bool)> {
    let pieces = split_on_spec(out, ":".spec_bytes());
    if pieces.len() < 2 {
        None
    } else {
        let v = pieces[1];
        let fs = fields_spec(v);
        Some(
            (
                if fs.len() > 0 {
                    fs[0]
                } else {
                    "1.0".spec_bytes()
                },
                contains_seq(v, "[MUTED]".spec_bytes()),
            ),
        )
    }
}

/// Parses `wpctl get-volume` output (`Volume: 0.75 [MUTED]`): the volume
/// token, for the caller to interpret, and the mute flag.
pub fn parse_wpctl_volume(output: &[u8]) -> (r: Option<(Vec<u8>, bool)>)
    ensures
        match (r, wpctl_volume_of(output@)) {
            (Some(p), Some(q)) => p.0@ == q.0 && p.1 == q.1,
            (None, None) => true,
            _ => false,
        },
{
    let pieces = split_on(output, ":".as_bytes());
    proof {
        assert(pieces@.map_values(|v: Vec<u8>| v@) == split_on_spec(output@, ":".spec_bytes()));
    }
    if pieces.len() < 2 {
        return None;
    }
    proof {
        assert(pieces@.map_values(|v: Vec<u8>| v@)[1] == pieces@[1]@);
    }
    let v = pieces[1].as_slice();
    let fields = split_fields(v);
    proof {
        assert(fields@.map_values(|vv: Vec<u8>| vv@) == fields_spec(v@));
    }
    let token: Vec<u8> = if fields.len() > 0 {
        proof {
            assert(fields@.map_values(|vv: Vec<u8>| vv@)[0] == fields@[0]@);
        }
        let mut t: Vec<u8> = Vec::new();
        let mut f0 = fields[0].clone();
        t.append(&mut f0);
        proof {
            assert(t@ =~= fields@[0]@);
        }
        t
    } else {
        vstd::slice::slice_to_vec("1.0".as_bytes())
    };
    let muted = contains_bytes(v, "[MUTED]".as_bytes());
    Some((token, muted))
}

/// The value of the first of (at most) `n` lines whose trimmed form
/// starts with `prefix`: the rest of that line, trimmed.
pub open spec fn prefixed_field_in(ls: Seq<Seq<u8>>, prefix: Seq<u8>, n: int) -> Option<Seq<u8>>
    decreases ls.len(),
{
    if ls.len() == 0 || n <= 0 {
        None
    } else {
        let t = trim_spec(ls[0]);
        if match_at(t, prefix, 0) {
            Some(trim_spec(t.skip(prefix.len() as int)))
        } else {
            prefixed_field_in(ls.drop_first(), prefix, n - 1)
        }
    }
}

/// Scans up to `max_lines` lines of `region` for one whose trimmed form
/// starts with `prefix`; hands back the trimmed remainder of that line.
pub fn find_prefixed_field(region: &[u8], prefix: &[u8], max_lines: usize) -> (r: Option<Vec<u8>>)
    ensures
        match (r, prefixed_field_in(lines_spec(region@), prefix@, max_lines as int)) {
            (Some(v), Some(q)) => v@ == q,
            (None, None) => true,
            _ => false,
        },
{
    let lines = split_lines(region);
    let ghost lsv = lines@.map_values(|v: Vec<u8>| v@);
    let mut i: usize = 0;
    proof {
        assert(lsv.skip(0) =~= lsv);
    }
    while i < lines.len() && i < max_lines
        invariant
            i <= lines@.len(),
            i <= max_lines,
            lsv == lines@.map_values(|v: Vec<u8>| v@),
            lsv == lines_spec(region@),
            prefixed_field_in(lines_spec(region@), prefix@, max_lines as int) == prefixed_field_in(
                lsv.skip(i as int),
                prefix@,
                max_lines as int - i as int,
            ),
        decreases lines@.len() - i,
    {
        proof {
            assert(lsv.skip(i as int)[0] == lsv[i as int]);
            assert(lsv.skip(i as int).drop_first() =~= lsv.skip(i as int + 1));
        }
        let t = trim_ascii(lines[i].as_slice());
        if crate::bytescan::starts_with(t, prefix) {
            let rest = vstd::slice::slice_subrange(t, prefix.len(), t.len());
            proof {
                assert(rest@ =~= trim_spec(lsv[i as int]).skip(prefix@.len() as int));
            }
            let value = trim_ascii(rest);
            return Some(vstd::slice::slice_to_vec(value));
        }
        i = i + 1;
    }
    proof {
        if i < lines@.len() {
        } else {
            assert(lsv.skip(lsv.len() as int) =~= Seq::<Seq<u8>>::empty());
        }
    }
    None
}

/// The search key for a stream's block in a sink-input listing.
pub open spec fn sink_input_key(id: u32) -> Seq<u8> {
    "Sink Input #".spec_bytes() + dec_digits(id as int)
}

/// The region of `output` from the first occurrence of `needle` on, if
/// any.
fn region_from<'a>(output: &'a [u8], needle: &[u8]) -> (r: Option<&'a [u8]>)
    ensures
        match r {
            Some(region) => exists|i: int|
                {
                    &&& #[trigger] match_at(output@, needle@, i)
                    &&& (forall|j: int| 0 <= j < i ==> !match_at(output@, needle@, j))
                    &&& region@ == output@.skip(i)
                },
            None => !contains_seq(output@, needle@),
        },
{
    match find_seq(output, needle) {
        Some(pos) => {
            let region = vstd::slice::slice_subrange(output, pos, output.len());
            proof {
                assert(region@ =~= output@.skip(pos as int));
            }
            Some(region)
        },
        None => None,
    }
}

/// The sink a stream is connected to, read from its block in a sink-input
/// listing: the `Sink:` field within the first lines of the block.
pub open spec fn actual_sink_of(out: Seq<u8>, id: u32, from: int) -> Option<u32> {
    let field = prefixed_field_in(lines_spec(out.skip(from)), "Sink:".spec_bytes(), 20);
    match field {
        Some(v) => if is_dec_u32(v) {
            Some(dec_value(v) as u32)
        } else {
            None
        },
        None => None,
    }
}

/// Finds which sink the stream with this identifier is on, per the
/// sink-input listing: locates the stream's block and reads its `Sink:`
/// field.
pub fn find_actual_sink_id(output: &[u8], sink_input_id: u32) -> (r: Option<u32>)
    ensures
        match r {
            Some(id) => exists|i: int|
                {
                    &&& #[trigger] match_at(output@, sink_input_key(sink_input_id), i)
                    &&& (forall|j: int|
                        0 <= j < i ==> !match_at(output@, sink_input_key(sink_input_id), j))
                    &&& actual_sink_of(output@, sink_input_id, i) == Some(id)
                },
            None => !contains_seq(output@, sink_input_key(sink_input_id)) || exists|i: int|
                {
                    &&& #[trigger] match_at(output@, sink_input_key(sink_input_id), i)
                    &&& (forall|j: int|
                        0 <= j < i ==> !match_at(output@, sink_input_key(sink_input_id), j))
                    &&& actual_sink_of(output@, sink_input_id, i) is None
                },
        },
{
    let digits = format_u32(sink_input_id);
    let needle = concat2("Sink Input #".as_bytes(), digits.as_slice());
    proof {
        assert(needle@ =~= sink_input_key(sink_input_id));
    }
    match region_from(output, needle.as_slice()) {
        Some(region) => {
            match find_prefixed_field(region, "Sink:".as_bytes(), 20) {
                Some(v) => {
                    match parse_u32_dec(v.as_slice()) {
                        Some(id) => Some(id),
                        None => None,
                    }
                },
                None => None,
            }
        },
        None => None,
    }
}

/// The name on the `Name:` field of a sink's block in a long sink
/// listing.
pub open spec fn sink_name_of(out: Seq<u8>, from: int) -> Option<Seq<u8>> {
    prefixed_field_in(lines_spec(out.skip(from)), "Name:".spec_bytes(), 10)
}

/// The search key for a sink's block in a long sink listing.
pub open spec fn sink_key(id: u32) -> Seq<u8> {
    "Sink #".spec_bytes() + dec_digits(id as int)
}

/// Finds the name of the sink with this identifier in a long sink
/// listing: locates the sink's block and reads its `Name:` field.
pub fn find_sink_name_long(output: &[u8], sink_id: u32) -> (r: Option<Vec<u8>>)
    ensures
        match r {
            Some(name) => exists|i: int|
                {
                    &&& #[trigger] match_at(output@, sink_key(sink_id), i)
                    &&& (forall|j: int| 0 <= j < i ==> !match_at(output@, sink_key(sink_id), j))
                    &&& sink_name_of(output@, i) == Some(name@)
                },
            None => !contains_seq(output@, sink_key(sink_id)) || exists|i: int|
                {
                    &&& #[trigger] match_at(output@, sink_key(sink_id), i)
                    &&& (forall|j: int| 0 <= j < i ==> !match_at(output@, sink_key(sink_id), j))
                    &&& sink_name_of(output@, i) is None
                },
        },
{
    let digits = format_u32(sink_id);
    let needle = concat2("Sink #".as_bytes(), digits.as_slice());
    proof {
        assert(needle@ =~= sink_key(sink_id));
    }
    match region_from(output, needle.as_slice()) {
        Some(region) => find_prefixed_field(region, "Name:".as_bytes(), 10),
        None => None,
    }
}

/// A binary's base name: the path's last component with every trailing
/// `-bin` and then every trailing `.exe` stripped.
pub open spec fn binary_base_name(path: Seq<u8>) -> Seq<u8> {
    strip_suffix_all_spec(
        strip_suffix_all_spec(after_last_byte(path, 47), "-bin".spec_bytes()),
        ".exe".spec_bytes(),
    )
}

/// Reduces a binary path to its base name: last path component, without
/// trailing `-bin` or `.exe`.
pub fn binary_base(path: &[u8]) -> (r: Vec<u8>)
    ensures
        r@ == binary_base_name(path@),
{
    let base = after_last(path, 47);
    let stripped = strip_suffix_all(base, "-bin".as_bytes());
    let stripped = strip_suffix_all(stripped, ".exe".as_bytes());
    vstd::slice::slice_to_vec(stripped)
}

/// The binary name recorded in a stream's block: the quoted value of its
/// `application.process.binary` property, reduced to its base name;
/// `None` when absent, empty or unterminated.
pub open spec fn block_binary_name(out: Seq<u8>, from: int) -> Option<Seq<u8>> {
    let field = prefixed_field_in(
        lines_spec(out.skip(from)),
        "application.process.binary = \"".spec_bytes(),
        30,
    );
    match field {
        Some(v) => match first_quote(v) {
            Some(q) => {
                let name = binary_base_name(v.subrange(0, q));
                if name.len() > 0 {
                    Some(name)
                } else {
                    None
                }
            },
            None => None,
        },
        None => None,
    }
}

/// The position of the first double quote.
pub open spec fn first_quote(s: Seq<u8>) -> Option<int> {
    if exists|i: int| 0 <= i < s.len() && s[i] == 34 && forall|j: int| 0 <= j < i ==> s[j] != 34 {
        Some(
            choose|i: int|
                0 <= i < s.len() && s[i] == 34 && forall|j: int| 0 <= j < i ==> s[j] != 34,
        )
    } else {
        None
    }
}

/// Finds the binary base name recorded in the block of the stream with
/// this identifier in a sink-input listing.
pub fn find_binary_for_input(output: &[u8], sink_input_id: u32) -> (r: Option<Vec<u8>>)
    ensures
        match r {
            Some(name) => name@.len() > 0 && exists|i: int|
                {
                    &&& #[trigger] match_at(output@, sink_input_key(sink_input_id), i)
                    &&& (forall|j: int|
                        0 <= j < i ==> !match_at(output@, sink_input_key(sink_input_id), j))
                    &&& block_binary_name(output@, i) == Some(name@)
                },
            None => !contains_seq(output@, sink_input_key(sink_input_id)) || exists|i: int|
                {
                    &&& #[trigger] match_at(output@, sink_input_key(sink_input_id), i)
                    &&& (forall|j: int|
                        0 <= j < i ==> !match_at(output@, sink_input_key(sink_input_id), j))
                    &&& block_binary_name(output@, i) is None
                },
        },
{
    let digits = format_u32(sink_input_id);
    let needle = concat2("Sink Input #".as_bytes(), digits.as_slice());
    proof {
        assert(needle@ =~= sink_input_key(sink_input_id));
    }
    match region_from(output, needle.as_slice()) {
        Some(region) => {
            match find_prefixed_field(region, "application.process.binary = \"".as_bytes(), 30) {
                Some(v) => {
                    match find_byte_from(v.as_slice(), 34, 0) {
                        Some(q) => {
                            proof {
                                match first_quote(v@) {
                                    Some(fq) => {
                                        assert(fq == q as int);
                                    },
                                    None => {
                                        assert(false);
                                    },
                                }
                            }
                            let path = vstd::slice::slice_subrange(v.as_slice(), 0, q);
                            let name = binary_base(path);
                            if name.len() > 0 {
                                Some(name)
                            } else {
                                None
                            }
                        },
                        None => {
                            proof {
                                match first_quote(v@) {
                                    Some(fq) => {
                                        assert(false);
                                    },
                                    None => {},
                                }
                            }
                            None
                        },
                    }
                },
                None => None,
            }
        },
        None => None,
    }
}

/// Whether a stream's recorded application name and binary name attribute
/// it to the target application.  Comparison folds ASCII case; a generic
/// `WEBRTC` stream counts when its binary matches the target.
pub open spec fn app_matches(app: Seq<u8>, bin: Seq<u8>, target: Seq<u8>) -> bool {
    let la = ascii_lower_spec(app);
    let lb = ascii_lower_spec(bin);
    let lt = ascii_lower_spec(target);
    (contains_seq(la, "webrtc".spec_bytes()) && lb == lt) || la == lt || lb == lt
}

/// Where the scan over a sink-input listing stands: the identifier of the
/// block being read (if its header parsed), whether the block's property
/// section has begun, and the application/binary names seen so far.
pub struct ScanState {
    pub cur_id: Option<u32>,
    pub in_props: bool,
    pub app: Seq<u8>,
    pub bin: Seq<u8>,
}

/// The scan before any line: no block open.
pub open spec fn initial_scan_state() -> ScanState {
    ScanState { cur_id: None, in_props: false, app: Seq::empty(), bin: Seq::empty() }
}

/// What a finished block contributes: its identifier, when its names
/// attribute it to the target.
pub open spec fn scan_flush(st: ScanState, target: Seq<u8>) -> Seq<u32> {
    match st.cur_id {
        Some(id) => if app_matches(st.app, st.bin, target) {
            seq![id]
        } else {
            Seq::empty()
        },
        None => Seq::empty(),
    }
}

/// One line of the scan: a block header flushes the previous block and
/// opens a new one; a `Properties:` line opens the property section; a
/// name or binary property inside it is recorded.
pub open spec fn scan_step(st: ScanState, line: Seq<u8>, target: Seq<u8>) -> (ScanState, Seq<u32>) {
    if match_at(line, "Sink Input #".spec_bytes(), 0) {
        let emitted = scan_flush(st, target);
        let rest = line.skip("Sink Input #".spec_bytes().len() as int);
        let id = if is_dec_u32(rest) {
            Some(dec_value(rest) as u32)
        } else {
            None::<u32>
        };
        (ScanState { cur_id: id, in_props: false, app: Seq::empty(), bin: Seq::empty() }, emitted)
    } else if trim_spec(line) == "Properties:".spec_bytes() {
        (ScanState { in_props: true, ..st }, Seq::empty())
    } else if st.in_props && st.cur_id is Some {
        let t = trim_spec(line);
        if match_at(t, "application.name = \"".spec_bytes(), 0) {
            let rest = t.skip("application.name = \"".spec_bytes().len() as int);
            match first_quote(rest) {
                Some(q) => (ScanState { app: rest.subrange(0, q), ..st }, Seq::empty()),
                None => (st, Seq::empty()),
            }
        } else if match_at(t, "application.process.binary = \"".spec_bytes(), 0) {
            let rest = t.skip("application.process.binary = \"".spec_bytes().len() as int);
            match first_quote(rest) {
                Some(q) => (
                    ScanState { bin: binary_base_name(rest.subrange(0, q)), ..st },
                    Seq::empty(),
                ),
                None => (st, Seq::empty()),
            }
        } else {
            (st, Seq::empty())
        }
    } else {
        (st, Seq::empty())
    }
}

/// The identifiers a scan of these lines attributes to the target,
/// including the final block's.
pub open spec fn scan_lines(ls: Seq<Seq<u8>>, st: ScanState, target: Seq<u8>) -> Seq<u32>
    decreases ls.len(),
{
    if ls.len() == 0 {
        scan_flush(st, target)
    } else {
        let sp = scan_step(st, ls[0], target);
        sp.1 + scan_lines(ls.drop_first(), sp.0, target)
    }
}

/// The scan's running state, executable form.
pub struct ScanCursor {
    pub cur_id: Option<u32>,
    pub in_props: bool,
    pub app: Vec<u8>,
    pub bin: Vec<u8>,
}

impl View for ScanCursor {
    type V = ScanState;

    open spec fn view(&self) -> ScanState {
        ScanState {
            cur_id: self.cur_id,
            in_props: self.in_props,
            app: self.app@,
            bin: self.bin@,
        }
    }
}

fn cursor_flush(st: &ScanCursor, target: &[u8]) -> (r: Option<u32>)
    ensures
        match r {
            Some(id) => scan_flush(st@, target@) == seq![id],
            None => scan_flush(st@, target@) == Seq::<u32>::empty(),
        },
{
    match st.cur_id {
        Some(id) => {
            let la = to_ascii_lower(st.app.as_slice());
            let lb = to_ascii_lower(st.bin.as_slice());
            let lt = to_ascii_lower(target);
            let matches = (contains_bytes(la.as_slice(), "webrtc".as_bytes()) && bytes_eq(
                lb.as_slice(),
                lt.as_slice(),
            )) || bytes_eq(la.as_slice(), lt.as_slice()) || bytes_eq(lb.as_slice(), lt.as_slice());
            if matches {
                Some(id)
            } else {
                None
            }
        },
        None => None,
    }
}

fn cursor_step(st: &mut ScanCursor, line: &[u8], target: &[u8]) -> (emitted: Option<u32>)
    ensures
        final(st)@ == scan_step(old(st)@, line@, target@).0,
        match emitted {
            Some(id) => scan_step(old(st)@, line@, target@).1 == seq![id],
            None => scan_step(old(st)@, line@, target@).1 == Seq::<u32>::empty(),
        },
{
    let header = "Sink Input #".as_bytes();
    if crate::bytescan::starts_with(line, header) {
        let emitted = cursor_flush(st, target);
        let rest = vstd::slice::slice_subrange(line, header.len(), line.len());
        proof {
            assert(rest@ =~= line@.skip("Sink Input #".spec_bytes().len() as int));
        }
        let id = parse_u32_dec(rest);
        st.cur_id = id;
        st.in_props = false;
        st.app = Vec::new();
        st.bin = Vec::new();
        return emitted;
    }
    let t = trim_ascii(line);
    if bytes_eq(t, "Properties:".as_bytes()) {
        st.in_props = true;
        return None;
    }
    if st.in_props && st.cur_id.is_some() {
        let name_prefix = "application.name = \"".as_bytes();
        let bin_prefix = "application.process.binary = \"".as_bytes();
        if crate::bytescan::starts_with(t, name_prefix) {
            let rest = vstd::slice::slice_subrange(t, name_prefix.len(), t.len());
            proof {
                assert(rest@ =~= trim_spec(line@).skip(
                    "application.name = \"".spec_bytes().len() as int,
                ));
            }
            match find_byte_from(rest, 34, 0) {
                Some(q) => {
                    proof {
                        match first_quote(rest@) {
                            Some(fq) => {
                                assert(fq == q as int);
                            },
                            None => {
                                assert(false);
                            },
                        }
                    }
                    let v = vstd::slice::slice_subrange(rest, 0, q);
                    st.app = vstd::slice::slice_to_vec(v);
                },
                None => {
                    proof {
                        match first_quote(rest@) {
                            Some(fq) => {
                                assert(false);
                            },
                            None => {},
                        }
                    }
                },
            }
            return None;
        }
        if crate::bytescan::starts_with(t, bin_prefix) {
            let rest = vstd::slice::slice_subrange(t, bin_prefix.len(), t.len());
            proof {
                assert(rest@ =~= trim_spec(line@).skip(
                    "application.process.binary = \"".spec_bytes().len() as int,
                ));
            }
            match find_byte_from(rest, 34, 0) {
                Some(q) => {
                    proof {
                        match first_quote(rest@) {
                            Some(fq) => {
                                assert(fq == q as int);
                            },
                            None => {
                                assert(false);
                            },
                        }
                    }
                    let v = vstd::slice::slice_subrange(rest, 0, q);
                    st.bin = binary_base(v);
                },
                None => {
                    proof {
                        match first_quote(rest@) {
                            Some(fq) => {
                                assert(false);
                            },
                            None => {},
                        }
                    }
                },
            }
            return None;
        }
    }
    None
}

/// Finds every stream in a sink-input listing that belongs to the target
/// application, by its recorded application name or binary name.
pub fn match_sink_inputs(output: &[u8], app_name: &[u8]) -> (r: Vec<u32>)
    ensures
        r@ == scan_lines(lines_spec(output@), initial_scan_state(), app_name@),
{
    let lines = split_lines(output);
    let ghost lsv = lines@.map_values(|v: Vec<u8>| v@);
    let mut st = ScanCursor { cur_id: None, in_props: false, app: Vec::new(), bin: Vec::new() };
    let mut acc: Vec<u32> = Vec::new();
    let mut i: usize = 0;
    proof {
        assert(lsv.skip(0) =~= lsv);
        assert(st@ == initial_scan_state());
        assert(acc@ =~= Seq::<u32>::empty());
    }
    while i < lines.len()
        invariant
            i <= lines@.len(),
            lsv == lines@.map_values(|v: Vec<u8>| v@),
            lsv == lines_spec(output@),
            acc@ + scan_lines(lsv.skip(i as int), st@, app_name@) == scan_lines(
                lsv,
                initial_scan_state(),
                app_name@,
            ),
        decreases lines@.len() - i,
    {
        proof {
            assert(lsv.skip(i as int)[0] == lsv[i as int]);
            assert(lsv.skip(i as int).drop_first() =~= lsv.skip(i as int + 1));
        }
        let ghost st_before = st@;
        let emitted = cursor_step(&mut st, lines[i].as_slice(), app_name);
        match emitted {
            Some(id) => {
                acc.push(id);
                proof {
                    assert(acc@ + scan_lines(lsv.skip(i as int + 1), st@, app_name@) =~= acc@.take(
                        acc@.len() - 1,
                    ) + (scan_step(st_before, lsv[i as int], app_name@).1 + scan_lines(
                        lsv.skip(i as int + 1),
                        st@,
                        app_name@,
                    )));
                    assert(acc@.take(acc@.len() - 1) + (scan_step(
                        st_before,
                        lsv[i as int],
                        app_name@,
                    ).1 + scan_lines(lsv.skip(i as int + 1), st@, app_name@)) =~= (acc@.take(
                        acc@.len() - 1,
                    ) + scan_step(st_before, lsv[i as int], app_name@).1) + scan_lines(
                        lsv.skip(i as int + 1),
                        st@,
                        app_name@,
                    ));
                }
            },
            None => {
                proof {
                    assert(acc@ + (scan_step(st_before, lsv[i as int], app_name@).1 + scan_lines(
                        lsv.skip(i as int + 1),
                        st@,
                        app_name@,
                    )) =~= acc@ + scan_lines(lsv.skip(i as int + 1), st@, app_name@));
                }
            },
        }
        i = i + 1;
    }
    proof {
        assert(lsv.skip(lsv.len() as int) =~= Seq::<Seq<u8>>::empty());
    }
    let tail = cursor_flush(&st, app_name);
    match tail {
        Some(id) => {
            acc.push(id);
            proof {
                assert(acc@ =~= scan_lines(lsv, initial_scan_state(), app_name@));
            }
        },
        None => {
            proof {
                assert(acc@ + Seq::<u32>::empty() =~= acc@);
            }
        },
    }
    acc
}

} // verus!
