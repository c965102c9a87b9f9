//! The command-line grammar: global flags for the discovery and transfer
//! ports and the chunk size, then one of the four operations. The process's
//! argument list is handed in as plain strings.

use vstd::prelude::*;
use vstd::slice::slice_index_get;

verus! {

/// What the process was asked to do.
#[derive(Debug, Clone)]
pub enum Mode {
    /// Announce this peer on the network, without any file operation.
    Announce,
    /// Share a local file and advertise it.
    Share {
        /// Path of the file to share.
        file: String,
    },
    /// Download a file advertised by some peer.
    Get {
        /// Name of the file to download.
        filename: String,
        /// Directory the finished file is placed in.
        out_dir: String,
    },
    /// List the peers the registry currently knows.
    Peers,
}

/// The process configuration: the operation and the ports and chunk size
/// the background services run with.
#[derive(Debug, Clone)]
pub struct Config {
    /// The operation to perform.
    pub mode: Mode,
    /// Port for peer discovery announcements.
    pub udp_port: u16,
    /// Port on which chunk requests are served and sent.
    pub tcp_port: u16,
    /// Size in bytes of every chunk but possibly the last; never zero.
    pub chunk_size: usize,
}

/// The value of the decimal digits of `s` from position `i` on, on top of
/// the value `acc` already read, or nothing at the first non-digit byte.
pub open spec fn spec_digits_val(s: Seq<u8>, i: int, acc: int) -> Option<int>
    decreases s.len() - i,
{
    if i < 0 || i >= s.len() {
        Some(acc)
    } else if 48 <= s[i] <= 57 {
        spec_digits_val(s, i + 1, acc * 10 + (s[i] - 48))
    } else {
        None
    }
}

/// The unsigned 64-bit value a byte string spells in decimal: nothing for
/// an empty string, a non-digit byte, or a value past `u64::MAX`.
pub open spec fn spec_parse_u64(s: Seq<u8>) -> Option<u64> {
    if s.len() == 0 {
        None
    } else {
        match spec_digits_val(s, 0, 0) {
            Some(v) => if v <= u64::MAX {
                Some(v as u64)
            } else {
                None
            },
            None => None,
        }
    }
}

/// Reading more digits never shrinks the value already read.
proof fn lemma_digits_val_grows(s: Seq<u8>, i: int, acc: int)
    requires
        acc >= 0,
    ensures
        spec_digits_val(s, i, acc) matches Some(v) ==> v >= acc,
    decreases s.len() - i,
{
    if 0 <= i < s.len() && 48 <= s[i] <= 57 {
        lemma_digits_val_grows(s, i + 1, acc * 10 + (s[i] - 48));
    }
}

/// Parse the decimal digits of a byte string as an unsigned 64-bit value.
pub fn parse_u64_bytes(s: &[u8]) -> (r: Option<u64>)
    ensures
        r == spec_parse_u64(s@),
{
    if s.len() == 0 {
        return None;
    }
    let mut i: usize = 0;
    let mut acc: u64 = 0;
    while i < s.len()
        invariant
            0 <= i <= s@.len(),
            spec_digits_val(s@, 0, 0) == spec_digits_val(s@, i as int, acc as int),
        decreases s@.len() - i,
    {
        let b = *slice_index_get(s, i);
        if b < 48 || b > 57 {
            return None;
        }
        let d = (b - 48) as u64;
        if acc > (u64::MAX - d) / 10 {
            proof {
                lemma_digits_val_grows(s@, i + 1, acc as int * 10 + (s@[i as int] - 48));
                assert(acc as int * 10 + d > u64::MAX) by (nonlinear_arith)
                    requires
                        acc > ((u64::MAX - d) as u64) / 10,
                        0 <= d <= 9,
                ;
            }
            return None;
        }
        proof {
            assert(acc as int * 10 + d <= u64::MAX) by (nonlinear_arith)
                requires
                    acc <= ((u64::MAX - d) as u64) / 10,
                    0 <= d <= 9,
            ;
        }
        acc = acc * 10 + d;
        i = i + 1;
    }
    Some(acc)
}

/// Parse the decimal digits of a string as an unsigned 64-bit value.
pub fn parse_u64_str(s: &String) -> (r: Option<u64>)
    ensures
        r == spec_parse_u64(vstd::utf8::encode_utf8(s@)),
{
    parse_u64_bytes(s.as_str().as_bytes())
}

/// Whether the string holds exactly the given characters.
fn is_lit(a: &String, b: &str) -> (r: bool)
    ensures
        r == (a@ == b@),
{
    let s = b.to_owned();
    *a == s
}

/// The operation a command line asks for, with names as character
/// strings: the spec-level counterpart of `Mode`.
pub enum SpecMode {
    /// Announce this peer on the network, without any file operation.
    Announce,
    /// Share a local file and advertise it.
    Share { file: Seq<char> },
    /// Download a file advertised by some peer.
    Get { filename: Seq<char>, out_dir: Seq<char> },
    /// List the peers the registry currently knows.
    Peers,
}

/// The configuration a command line asks for: the spec-level counterpart
/// of `Config`.
pub struct SpecConfig {
    /// The operation to perform.
    pub mode: SpecMode,
    /// Port for peer discovery announcements.
    pub udp_port: u16,
    /// Port on which chunk requests are served and sent.
    pub tcp_port: u16,
    /// Size in bytes of every chunk but possibly the last.
    pub chunk_size: usize,
}

/// Whether a configuration value carries exactly what a spec-level
/// configuration says: the same ports and chunk size, and the same
/// operation with the same names.
pub open spec fn cfg_matches(cfg: Config, s: SpecConfig) -> bool {
    &&& cfg.udp_port == s.udp_port
    &&& cfg.tcp_port == s.tcp_port
    &&& cfg.chunk_size == s.chunk_size
    &&& match (cfg.mode, s.mode) {
        (Mode::Announce, SpecMode::Announce) => true,
        (Mode::Share { file }, SpecMode::Share { file: f }) => file@ == f,
        (Mode::Get { filename, out_dir }, SpecMode::Get { filename: f, out_dir: d }) => filename@
            == f && out_dir@ == d,
        (Mode::Peers, SpecMode::Peers) => true,
        _ => false,
    }
}

/// Consume the flag pairs of the command line from position `i` on, on top
/// of the port and chunk-size values collected so far: the position of the
/// first argument that is no known flag, together with the collected
/// values; or nothing when a flag's value is missing, unparseable or out
/// of range.
pub open spec fn spec_parse_flags(
    args: Seq<String>,
    i: int,
    udp: u16,
    tcp: u16,
    cs: usize,
) -> Option<(int, u16, u16, usize)>
    decreases args.len() - i,
{
    if i < 0 || i >= args.len() {
        Some((i, udp, tcp, cs))
    } else if args[i]@ == "--udp-port"@ {
        if i + 1 >= args.len() {
            None
        } else {
            match spec_parse_u64(vstd::utf8::encode_utf8(args[i + 1]@)) {
                Some(v) => if v > u16::MAX {
                    None
                } else {
                    spec_parse_flags(args, i + 2, v as u16, tcp, cs)
                },
                None => None,
            }
        }
    } else if args[i]@ == "--tcp-port"@ {
        if i + 1 >= args.len() {
            None
        } else {
            match spec_parse_u64(vstd::utf8::encode_utf8(args[i + 1]@)) {
                Some(v) => if v > u16::MAX {
                    None
                } else {
                    spec_parse_flags(args, i + 2, udp, v as u16, cs)
                },
                None => None,
            }
        }
    } else if args[i]@ == "--chunk-size"@ {
        if i + 1 >= args.len() {
            None
        } else {
            match spec_parse_u64(vstd::utf8::encode_utf8(args[i + 1]@)) {
                Some(v) => if v < 1 || v > usize::MAX {
                    None
                } else {
                    spec_parse_flags(args, i + 2, udp, tcp, v as usize)
                },
                None => None,
            }
        }
    } else {
        Some((i, udp, tcp, cs))
    }
}

/// The configuration a whole command line asks for, or nothing when it is
/// rejected: the flags `--udp-port`, `--tcp-port` and `--chunk-size` with
/// defaults 6001, 6000 and 65536, then exactly one of the four operations
/// with its arguments, `out_dir` defaulting to the working directory.
pub open spec fn spec_parse_args(args: Seq<String>) -> Option<SpecConfig> {
    if args.len() < 2 {
        None
    } else {
        match spec_parse_flags(args, 1, 6001u16, 6000u16, 65536usize) {
            None => None,
            Some(f) => {
                let i = f.0;
                let udp_port = f.1;
                let tcp_port = f.2;
                let chunk_size = f.3;
                if i >= args.len() {
                    None
                } else if args[i]@ == "announce"@ {
                    if args.len() == i + 1 {
                        Some(SpecConfig { mode: SpecMode::Announce, udp_port, tcp_port, chunk_size })
                    } else {
                        None
                    }
                } else if args[i]@ == "peers"@ {
                    if args.len() == i + 1 {
                        Some(SpecConfig { mode: SpecMode::Peers, udp_port, tcp_port, chunk_size })
                    } else {
                        None
                    }
                } else if args[i]@ == "share"@ {
                    if args.len() == i + 2 {
                        Some(
                            SpecConfig {
                                mode: SpecMode::Share { file: args[i + 1]@ },
                                udp_port,
                                tcp_port,
                                chunk_size,
                            },
                        )
                    } else {
                        None
                    }
                } else if args[i]@ == "get"@ {
                    if args.len() == i + 2 {
                        Some(
                            SpecConfig {
                                mode: SpecMode::Get { filename: args[i + 1]@, out_dir: "."@ },
                                udp_port,
                                tcp_port,
                                chunk_size,
                            },
                        )
                    } else if args.len() == i + 4 && args[i + 2]@ == "--out-dir"@ {
                        Some(
                            SpecConfig {
                                mode: SpecMode::Get { filename: args[i + 1]@, out_dir: args[i + 3]@ },
                                udp_port,
                                tcp_port,
                                chunk_size,
                            },
                        )
                    } else {
                        None
                    }
                } else {
                    None
                }
            },
        }
    }
}

/// Parse the operation and its arguments, after the flags have been
/// consumed up to position `i` with the collected values.
fn parse_command(args: &Vec<String>, i: usize, udp_port: u16, tcp_port: u16, chunk_size: usize) -> (r:
    Option<Config>)
    requires
        args@.len() >= 2,
        1 <= i < args@.len(),
        spec_parse_flags(args@, 1, 6001u16, 6000u16, 65536usize) == Some(
            (i as int, udp_port, tcp_port, chunk_size),
        ),
    ensures
        r is Some <==> spec_parse_args(args@) is Some,
        r matches Some(cfg) ==> cfg_matches(cfg, spec_parse_args(args@)->Some_0),
{
    let n = args.len();
    let cmd = &args[i];
    if is_lit(cmd, "announce") {
        if n - i != 1 {
            return None;
        }
        Some(Config { mode: Mode::Announce, udp_port, tcp_port, chunk_size })
    } else if is_lit(cmd, "peers") {
        if n - i != 1 {
            return None;
        }
        Some(Config { mode: Mode::Peers, udp_port, tcp_port, chunk_size })
    } else if is_lit(cmd, "share") {
        if n - i != 2 {
            return None;
        }
        let file = args[i + 1].clone();
        Some(Config { mode: Mode::Share { file }, udp_port, tcp_port, chunk_size })
    } else if is_lit(cmd, "get") {
        if n - i == 2 {
            let filename = args[i + 1].clone();
            let out_dir = ".".to_owned();
            return Some(
                Config { mode: Mode::Get { filename, out_dir }, udp_port, tcp_port, chunk_size },
            );
        }
        if n - i == 4 && is_lit(&args[i + 2], "--out-dir") {
            let filename = args[i + 1].clone();
            let out_dir = args[i + 3].clone();
            return Some(
                Config { mode: Mode::Get { filename, out_dir }, udp_port, tcp_port, chunk_size },
            );
        }
        None
    } else {
        None
    }
}

/// Parse the command line into a configuration: exactly the configuration
/// the grammar in `spec_parse_args` gives it, and nothing exactly when the
/// grammar rejects it — an unknown flag, a missing, unparseable or
/// out-of-range value, a zero chunk size, a missing operation or a
/// trailing argument.
pub fn parse_args(args: &Vec<String>) -> (r: Option<Config>)
    ensures
        r is Some <==> spec_parse_args(args@) is Some,
        r matches Some(cfg) ==> cfg_matches(cfg, spec_parse_args(args@)->Some_0),
{
    if args.len() < 2 {
        return None;
    }
    let mut udp_port: u16 = 6001;
    let mut tcp_port: u16 = 6000;
    let mut chunk_size: usize = 65536;
    let n = args.len();
    let mut i: usize = 1;
    while i < n
        invariant
            1 <= i <= n,
            n == args@.len(),
            spec_parse_flags(args@, 1, 6001u16, 6000u16, 65536usize) == spec_parse_flags(
                args@,
                i as int,
                udp_port,
                tcp_port,
                chunk_size,
            ),
        decreases n - i,
    {
        let arg = &args[i];
        if is_lit(arg, "--udp-port") {
            if n - i < 2 {
                return None;
            }
            let v = match parse_u64_str(&args[i + 1]) {
                Some(v) => v,
                None => {
                    return None;
                },
            };
            if v > u16::MAX as u64 {
                return None;
            }
            proof {
                assert(spec_parse_flags(args@, i as int, udp_port, tcp_port, chunk_size)
                    == spec_parse_flags(args@, i + 2, v as u16, tcp_port, chunk_size));
            }
            udp_port = v as u16;
            i = i + 2;
        } else if is_lit(arg, "--tcp-port") {
            if n - i < 2 {
                return None;
            }
            let v = match parse_u64_str(&args[i + 1]) {
                Some(v) => v,
                None => {
                    return None;
                },
            };
            if v > u16::MAX as u64 {
                return None;
            }
            proof {
                assert(spec_parse_flags(args@, i as int, udp_port, tcp_port, chunk_size)
                    == spec_parse_flags(args@, i + 2, udp_port, v as u16, chunk_size));
            }
            tcp_port = v as u16;
            i = i + 2;
        } else if is_lit(arg, "--chunk-size") {
            if n - i < 2 {
                return None;
            }
            let v = match parse_u64_str(&args[i + 1]) {
                Some(v) => v,
                None => {
                    return None;
                },
            };
            if v < 1 || v > usize::MAX as u64 {
                return None;
            }
            proof {
                assert(spec_parse_flags(args@, i as int, udp_port, tcp_port, chunk_size)
                    == spec_parse_flags(args@, i + 2, udp_port, tcp_port, v as usize));
            }
            chunk_size = v as usize;
            i = i + 2;
        } else {
            proof {
                assert(spec_parse_flags(args@, i as int, udp_port, tcp_port, chunk_size) == Some(
                    (i as int, udp_port, tcp_port, chunk_size),
                ));
            }
            return parse_command(args, i, udp_port, tcp_port, chunk_size);
        }
    }
    proof {
        assert(spec_parse_flags(args@, i as int, udp_port, tcp_port, chunk_size) == Some(
            (i as int, udp_port, tcp_port, chunk_size),
        ));
    }
    None
}

} // verus!
