//! The line-oriented command protocol of the local control socket: one
//! command per line, answered with `OK <message>` or `ERROR <message>`.
//! Commands and answers are byte strings; the caller owns the socket and
//! converts names to its key type at the edge.
use vstd::prelude::*;
use vstd::string::StringSliceAdditionalSpecFns;

use crate::bytescan::{
    all_digits, bytes_eq, concat2, dec_value, fields_spec, find_byte_from, parse_u32_dec,
    split_fields,
};

verus! {

/// A parsed command.
#[derive(Debug, Clone)]
pub enum Command {
    /// `ROUTE <app_name> <sink_name>`
    Route { app_name: Vec<u8>, sink_name: Vec<u8> },
    /// `SET_VOLUME <sink_name> <volume>`: the volume in thousandths, plus
    /// the token as written, for echoing and for the backend call.
    SetVolume { sink_name: Vec<u8>, volume_permille: u32, volume_token: Vec<u8> },
    /// `MUTE <sink_name> <true|false>`
    Mute { sink_name: Vec<u8>, muted: bool },
    /// `RELOAD_CONFIG`
    ReloadConfig,
}

/// Spec form of a parsed command.
pub enum CommandSpec {
    Route { app_name: Seq<u8>, sink_name: Seq<u8> },
    SetVolume { sink_name: Seq<u8>, volume_permille: u32, volume_token: Seq<u8> },
    Mute { sink_name: Seq<u8>, muted: bool },
    ReloadConfig,
}

impl View for Command {
    type V = CommandSpec;

    open spec fn view(&self) -> CommandSpec {
        match self {
            Command::Route { app_name, sink_name } => CommandSpec::Route {
                app_name: app_name@,
                sink_name: sink_name@,
            },
            Command::SetVolume { sink_name, volume_permille, volume_token } => (
                CommandSpec::SetVolume {
                    sink_name: sink_name@,
                    volume_permille: *volume_permille,
                    volume_token: volume_token@,
                }
            ),
            Command::Mute { sink_name, muted } => CommandSpec::Mute {
                sink_name: sink_name@,
                muted: *muted,
            },
            Command::ReloadConfig => CommandSpec::ReloadConfig,
        }
    }
}

/// The value of a decimal volume token, in thousandths: an optional
/// minus, then digits with at most one decimal point and at least one
/// digit in all; fractional digits beyond the third are cut off.  `None`
/// when the token has any other shape.
pub open spec fn decimal_permille(s: Seq<u8>) -> Option<int> {
    let u = if s.len() > 0 && s[0] == 45 {
        s.drop_first()
    } else {
        s
    };
    let neg = s.len() > 0 && s[0] == 45;
    match first_dot(u) {
        Some(i) => {
            let ip = u.subrange(0, i);
            let fp = u.subrange(i + 1, u.len() as int);
            if all_digits(ip) && all_digits(fp) && ip.len() + fp.len() > 0 {
                Some(signed(neg, dec_value(ip) * 1000 + frac_permille(fp)))
            } else {
                None
            }
        },
        None => {
            if all_digits(u) && u.len() > 0 {
                Some(signed(neg, dec_value(u) * 1000))
            } else {
                None
            }
        },
    }
}

/// A value with an optional minus sign applied.
pub open spec fn signed(neg: bool, v: int) -> int {
    if neg {
        -v
    } else {
        v
    }
}

/// The position of the first decimal point.
pub open spec fn first_dot(s: Seq<u8>) -> Option<int> {
    if exists|i: int| 0 <= i < s.len() && s[i] == 46 && forall|j: int| 0 <= j < i ==> s[j] != 46 {
        Some(
            choose|i: int|
                0 <= i < s.len() && s[i] == 46 && forall|j: int| 0 <= j < i ==> s[j] != 46,
        )
    } else {
        None
    }
}

/// Thousandths contributed by a fraction part: its first three digits,
/// padded with zeros.
pub open spec fn frac_permille(fp: Seq<u8>) -> int {
    let f3 = if fp.len() >= 3 {
        fp.subrange(0, 3)
    } else {
        fp
    };
    dec_value(f3) * pow10(3 - f3.len() as int)
}

pub open spec fn pow10(n: int) -> int
    decreases n,
{
    if n <= 0 {
        1
    } else {
        10 * pow10(n - 1)
    }
}

/// What parsing a command line yields, over the line's whitespace-
/// separated fields.
pub open spec fn parse_command_spec(s: Seq<u8>) -> Result<CommandSpec, Seq<u8>> {
    let fs = fields_spec(s);
    if fs.len() == 0 {
        Err("Empty command".spec_bytes())
    } else if fs[0] == "ROUTE".spec_bytes() {
        if fs.len() != 3 {
            Err("Usage: ROUTE <app_name> <sink_name>".spec_bytes())
        } else {
            Ok(CommandSpec::Route { app_name: fs[1], sink_name: fs[2] })
        }
    } else if fs[0] == "SET_VOLUME".spec_bytes() {
        if fs.len() != 3 {
            Err("Usage: SET_VOLUME <sink_name> <volume>".spec_bytes())
        } else {
            match decimal_permille(fs[2]) {
                Some(v) => {
                    if 0 <= v <= 1000 {
                        Ok(
                            CommandSpec::SetVolume {
                                sink_name: fs[1],
                                volume_permille: v as u32,
                                volume_token: fs[2],
                            },
                        )
                    } else {
                        Err("Volume must be between 0.0 and 1.0".spec_bytes())
                    }
                },
                None => Err("Invalid volume value".spec_bytes()),
            }
        }
    } else if fs[0] == "MUTE".spec_bytes() {
        if fs.len() != 3 {
            Err("Usage: MUTE <sink_name> <true|false>".spec_bytes())
        } else if fs[2] == "true".spec_bytes() {
            Ok(CommandSpec::Mute { sink_name: fs[1], muted: true })
        } else if fs[2] == "false".spec_bytes() {
            Ok(CommandSpec::Mute { sink_name: fs[1], muted: false })
        } else {
            Err("Invalid mute value".spec_bytes())
        }
    } else if fs[0] == "RELOAD_CONFIG".spec_bytes() {
        Ok(CommandSpec::ReloadConfig)
    } else {
        Err("Unknown command: ".spec_bytes() + fs[0])
    }
}

/// Parses one command line.
pub fn parse_command(line: &[u8]) -> (r: Result<Command, Vec<u8>>)
    ensures
        match (r, parse_command_spec(line@)) {
            (Ok(c), Ok(cs)) => c@ == cs,
            (Err(m), Err(ms)) => m@ == ms,
            _ => false,
        },
{
    let fields = split_fields(line);
    proof {
        assert(fields@.map_values(|v: Vec<u8>| v@) == fields_spec(line@));
        assert forall|i: int| 0 <= i < fields@.len() implies fields@.map_values(|v: Vec<u8>| v@)[i]
            == fields@[i]@ by {}
    }
    if fields.len() == 0 {
        return Err(vstd::slice::slice_to_vec("Empty command".as_bytes()));
    }
    if bytes_eq(fields[0].as_slice(), "ROUTE".as_bytes()) {
        if fields.len() != 3 {
            return Err(vstd::slice::slice_to_vec("Usage: ROUTE <app_name> <sink_name>".as_bytes()));
        }
        let app_name = vstd::slice::slice_to_vec(fields[1].as_slice());
        let sink_name = vstd::slice::slice_to_vec(fields[2].as_slice());
        return Ok(Command::Route { app_name, sink_name });
    }
    if bytes_eq(fields[0].as_slice(), "SET_VOLUME".as_bytes()) {
        if fields.len() != 3 {
            return Err(
                vstd::slice::slice_to_vec("Usage: SET_VOLUME <sink_name> <volume>".as_bytes()),
            );
        }
        match permille_of_token(fields[2].as_slice()) {
            VolumeParse::Valid(v) => {
                let sink_name = vstd::slice::slice_to_vec(fields[1].as_slice());
                let volume_token = vstd::slice::slice_to_vec(fields[2].as_slice());
                return Ok(Command::SetVolume { sink_name, volume_permille: v, volume_token });
            },
            VolumeParse::OutOfRange => {
                return Err(
                    vstd::slice::slice_to_vec("Volume must be between 0.0 and 1.0".as_bytes()),
                );
            },
            VolumeParse::Invalid => {
                return Err(vstd::slice::slice_to_vec("Invalid volume value".as_bytes()));
            },
        }
    }
    if bytes_eq(fields[0].as_slice(), "MUTE".as_bytes()) {
        if fields.len() != 3 {
            return Err(vstd::slice::slice_to_vec("Usage: MUTE <sink_name> <true|false>".as_bytes()));
        }
        if bytes_eq(fields[2].as_slice(), "true".as_bytes()) {
            let sink_name = vstd::slice::slice_to_vec(fields[1].as_slice());
            return Ok(Command::Mute { sink_name, muted: true });
        }
        if bytes_eq(fields[2].as_slice(), "false".as_bytes()) {
            let sink_name = vstd::slice::slice_to_vec(fields[1].as_slice());
            return Ok(Command::Mute { sink_name, muted: false });
        }
        return Err(vstd::slice::slice_to_vec("Invalid mute value".as_bytes()));
    }
    if bytes_eq(fields[0].as_slice(), "RELOAD_CONFIG".as_bytes()) {
        return Ok(Command::ReloadConfig);
    }
    Err(concat2("Unknown command: ".as_bytes(), fields[0].as_slice()))
}

/// How a volume token parsed.
pub enum VolumeParse {
    /// A decimal in `[0.0, 1.0]`, in thousandths.
    Valid(u32),
    /// A decimal outside `[0.0, 1.0]`.
    OutOfRange,
    /// Not a decimal.
    Invalid,
}

/// Classifies a volume token against [`decimal_permille`].
#[verifier::rlimit(80)]
#[verifier::spinoff_prover]
fn permille_of_token(s: &[u8]) -> (r: VolumeParse)
    ensures
        match r {
            VolumeParse::Valid(v) => decimal_permille(s@) == Some(v as int) && v <= 1000,
            VolumeParse::OutOfRange => match decimal_permille(s@) {
                Some(v) => v < 0 || v > 1000,
                None => false,
            },
            VolumeParse::Invalid => decimal_permille(s@) is None,
        },
{
    let (neg, u): (bool, &[u8]) = if s.len() > 0 && s[0] == 45 {
        proof {
            assert(s@.subrange(1, s@.len() as int) =~= s@.drop_first());
        }
        (true, vstd::slice::slice_subrange(s, 1, s.len()))
    } else {
        (false, s)
    };
    let (ip, fp): (&[u8], &[u8]) = match find_byte_from(u, 46, 0) {
        Some(i) => {
            proof {
                match first_dot(u@) {
                    Some(fd) => {
                        assert(fd == i as int);
                    },
                    None => {
                        assert(false);
                    },
                }
            }
            (
                vstd::slice::slice_subrange(u, 0, i),
                vstd::slice::slice_subrange(u, i + 1, u.len()),
            )
        },
        None => {
            proof {
                match first_dot(u@) {
                    Some(fd) => {
                        assert(false);
                    },
                    None => {},
                }
                assert(u@.subrange(0, u@.len() as int) =~= u@);
            }
            (u, vstd::slice::slice_subrange(u, u.len(), u.len()))
        },
    };
    proof {
        if first_dot(u@) is None {
            assert(fp@ =~= Seq::<u8>::empty());
            assert(all_digits(fp@));
            assert(dec_value(fp@) == 0);
            assert(frac_permille(fp@) == dec_value(fp@) * pow10(3 - fp@.len() as int));
            assert(dec_value(fp@) * pow10(3 - fp@.len() as int) == 0) by (nonlinear_arith)
                requires dec_value(fp@) == 0;
        }
    }
    if ip.len() + fp.len() == 0 {
        return VolumeParse::Invalid;
    }
    let int_part = match bounded_dec_value(ip) {
        Some(v) => v,
        None => {
            return VolumeParse::Invalid;
        },
    };
    match bounded_dec_value(fp) {
        Some(_) => {},
        None => {
            return VolumeParse::Invalid;
        },
    }
    let f3 = if fp.len() >= 3 {
        vstd::slice::slice_subrange(fp, 0, 3)
    } else {
        fp
    };
    proof {
        if fp@.len() >= 3 {
            assert(f3@ =~= fp@.subrange(0, 3));
        }
        assert(all_digits(f3@)) by {
            assert(forall|j: int| 0 <= j < f3@.len() ==> f3@[j] == fp@[j]);
        }
        lemma_dec_value_bound(f3@);
        assert(pow10(0) == 1);
        assert(pow10(1) == 10);
        assert(pow10(2) == 100);
        assert(pow10(3) == 1000);
        assert(dec_value(f3@) < 1000) by {
            lemma_dec_value_bound(f3@);
            assert(pow10(0) == 1);
            assert(pow10(1) == 10);
            assert(pow10(2) == 100);
            assert(pow10(3) == 1000);
            if f3@.len() == 0 {
            } else if f3@.len() == 1 {
            } else if f3@.len() == 2 {
            } else {
                assert(f3@.len() == 3);
            }
        }
    }
    let frac0 = match bounded_dec_value(f3) {
        Some(v) => v,
        None => {
            proof {
                assert(false);
            }
            return VolumeParse::Invalid;
        },
    };
    assert(frac0 < 1000);
    let fl = f3.len();
    let frac: u64 = if fl == 0 {
        0
    } else if fl == 1 {
        frac0 * 100
    } else if fl == 2 {
        frac0 * 10
    } else {
        frac0
    };
    proof {
        let scale = pow10(3 - f3@.len() as int);
        assert(frac_permille(fp@) == dec_value(f3@) * scale);
        if f3@.len() == 0 {
            assert(scale == 1000);
            assert(dec_value(f3@) == 0);
            assert(dec_value(f3@) * scale == 0) by (nonlinear_arith)
                requires dec_value(f3@) == 0;
        } else if f3@.len() == 1 {
            assert(scale == 100);
        } else if f3@.len() == 2 {
            assert(scale == 10);
        } else {
            assert(scale == 1);
        }
        assert(frac as int == frac_permille(fp@));
    }
    let value: u64 = int_part * 1000 + frac;
    proof {
        crate::bytescan::lemma_dec_value_nonneg(ip@);
        if dec_value(ip@) <= 1000000 {
            assert(value as int == dec_value(ip@) * 1000 + frac_permille(fp@));
        } else {
            assert(value > 1000);
            assert(dec_value(ip@) * 1000 + frac_permille(fp@) > 1000);
        }
    }
    if neg {
        if value == 0 {
            VolumeParse::Valid(0)
        } else {
            VolumeParse::OutOfRange
        }
    } else if value > 1000 {
        VolumeParse::OutOfRange
    } else {
        VolumeParse::Valid(value as u32)
    }
}

/// The value of a digit run is below one followed by that many zeros.
proof fn lemma_dec_value_bound(s: Seq<u8>)
    requires
        all_digits(s),
    ensures
        dec_value(s) < pow10(s.len() as int),
    decreases s.len(),
{
    if s.len() > 0 {
        assert(all_digits(s.drop_last()));
        lemma_dec_value_bound(s.drop_last());
    }
}

/// The value of a run of digits, `None` when a byte is not a digit; the
/// value saturates at a bound comfortably past the volume range, which is
/// all the classification needs.
fn bounded_dec_value(s: &[u8]) -> (r: Option<u64>)
    ensures
        match r {
            Some(v) => all_digits(s@) && if dec_value(s@) <= 1000000 {
                v == dec_value(s@)
            } else {
                v == 1000001 && dec_value(s@) > 1000000
            },
            None => !all_digits(s@),
        },
{
    let mut value: u64 = 0;
    let mut i: usize = 0;
    while i < s.len()
        invariant
            i <= s@.len(),
            all_digits(s@.take(i as int)),
            value <= 1000001,
            if dec_value(s@.take(i as int)) <= 1000000 {
                value == dec_value(s@.take(i as int))
            } else {
                value == 1000001 && dec_value(s@.take(i as int)) > 1000000
            },
        decreases s@.len() - i,
    {
        let b = s[i];
        if b < 48 || b > 57 {
            proof {
                assert(!all_digits(s@));
            }
            return None;
        }
        proof {
            assert(s@.take(i as int + 1).drop_last() =~= s@.take(i as int));
            assert(all_digits(s@.take(i as int + 1))) by {
                assert(forall|j: int|
                    0 <= j < i + 1 ==> 48 <= #[trigger] s@.take(i as int + 1)[j] <= 57);
            }
            crate::bytescan::lemma_dec_value_nonneg(s@.take(i as int));
        }
        let d = (b - 48) as u64;
        value = value * 10 + d;
        if value > 1000001 {
            value = 1000001;
        }
        i = i + 1;
    }
    proof {
        assert(s@.take(s@.len() as int) =~= s@);
    }
    Some(value)
}

/// The success message for a route command.
pub fn route_ok_response(app_name: &[u8], sink_name: &[u8]) -> (r: Vec<u8>)
    ensures
        r@ == "Routed ".spec_bytes() + app_name@ + " to ".spec_bytes() + sink_name@,
{
    let head = concat2("Routed ".as_bytes(), app_name);
    concat2(head.as_slice(), concat2(" to ".as_bytes(), sink_name).as_slice())
}

/// The failure message for a route command, around the backend's words.
pub fn route_err_response(app_name: &[u8], sink_name: &[u8], reason: &[u8]) -> (r: Vec<u8>)
    ensures
        r@ == "Failed to route ".spec_bytes() + app_name@ + " to ".spec_bytes() + sink_name@
            + ": ".spec_bytes() + reason@,
{
    let a = concat2("Failed to route ".as_bytes(), app_name);
    let b = concat2(" to ".as_bytes(), sink_name);
    let c = concat2(": ".as_bytes(), reason);
    let ab = concat2(a.as_slice(), b.as_slice());
    concat2(ab.as_slice(), c.as_slice())
}

/// The success message for a volume command, echoing the token.
pub fn volume_ok_response(sink_name: &[u8], volume_token: &[u8]) -> (r: Vec<u8>)
    ensures
        r@ == "Set ".spec_bytes() + sink_name@ + " volume to ".spec_bytes() + volume_token@,
{
    let head = concat2("Set ".as_bytes(), sink_name);
    concat2(head.as_slice(), concat2(" volume to ".as_bytes(), volume_token).as_slice())
}

/// The success message for a mute command.
pub fn mute_ok_response(sink_name: &[u8], muted: bool) -> (r: Vec<u8>)
    ensures
        r@ == "Set ".spec_bytes() + sink_name@ + " muted to ".spec_bytes() + (if muted {
            "true".spec_bytes()
        } else {
            "false".spec_bytes()
        }),
{
    let head = concat2("Set ".as_bytes(), sink_name);
    let flag: &[u8] = if muted {
        "true".as_bytes()
    } else {
        "false".as_bytes()
    };
    concat2(head.as_slice(), concat2(" muted to ".as_bytes(), flag).as_slice())
}

/// One protocol line: `OK <message>` or `ERROR <message>`, newline
/// terminated.
pub fn frame_response(outcome: Result<Vec<u8>, Vec<u8>>) -> (r: Vec<u8>)
    ensures
        r@ == match outcome {
            Ok(m) => "OK ".spec_bytes() + m@ + "\n".spec_bytes(),
            Err(m) => "ERROR ".spec_bytes() + m@ + "\n".spec_bytes(),
        },
{
    match outcome {
        Ok(m) => {
            let head = concat2("OK ".as_bytes(), m.as_slice());
            concat2(head.as_slice(), "\n".as_bytes())
        },
        Err(m) => {
            let head = concat2("ERROR ".as_bytes(), m.as_slice());
            concat2(head.as_slice(), "\n".as_bytes())
        },
    }
}

} // verus!
