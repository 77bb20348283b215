//! The server's command line: `serve <root>` and eight optional flags, each
//! followed by its value.

use vstd::prelude::*;
use vstd::string::StringExecFns;
use crate::number::{NumberError, parse_unsigned, unsigned_decimal};

verus! {

/// The command-line synopsis, also the answer to a malformed command.
pub const USAGE: &'static str = "usage: iiif-server serve <root> [--bind ADDR] [--max-width N] [--max-height N] [--max-area N] [--workers N] [--queue-depth N] [--public-base URL] [--endpoint URL]";

/// The listening address when `--bind` is absent.
pub const DEFAULT_BIND: &'static str = "127.0.0.1:6363";

/// Deployment knobs. `bind` is the address text, already known to parse
/// as a socket address.
#[derive(Debug, Clone, PartialEq, Eq)]
pub struct Config {
    pub root: String,
    pub bind: String,
    pub max_width: u32,
    pub max_height: u32,
    pub max_area: u64,
    pub workers: usize,
    pub queue_depth: usize,
    pub public_base: Option<String>,
    /// Endpoint URL of an S3-compatible object store serving `s3://` roots.
    pub endpoint: Option<String>,
}

/// A [`Config`] seen through the text of its strings.
pub struct Settings {
    pub root: Seq<char>,
    pub bind: Seq<char>,
    pub max_width: u32,
    pub max_height: u32,
    pub max_area: u64,
    pub workers: usize,
    pub queue_depth: usize,
    pub public_base: Option<Seq<char>>,
    pub endpoint: Option<Seq<char>>,
}

pub open spec fn text_of(o: Option<String>) -> Option<Seq<char>> {
    match o {
        Some(s) => Some(s@),
        None => None,
    }
}

impl Config {
    pub open spec fn settings(self) -> Settings {
        Settings {
            root: self.root@,
            bind: self.bind@,
            max_width: self.max_width,
            max_height: self.max_height,
            max_area: self.max_area,
            workers: self.workers,
            queue_depth: self.queue_depth,
            public_base: text_of(self.public_base),
            endpoint: text_of(self.endpoint),
        }
    }
}

/// The settings before any flag: bind `127.0.0.1:6363`, 8192 × 8192 at
/// most 32 megapixels, the given worker count, a queue of 64.
pub open spec fn defaults(root: Seq<char>, workers: usize) -> Settings {
    Settings {
        root,
        bind: DEFAULT_BIND@,
        max_width: 8192,
        max_height: 8192,
        max_area: 33_554_432,
        workers,
        queue_depth: 64,
        public_base: None,
        endpoint: None,
    }
}

/// `flag: reason` for a value that does not parse.
pub open spec fn value_error(flag: Seq<char>, reason: Seq<char>) -> Seq<char> {
    flag + ": "@ + reason
}

/// One flag and its value applied to the settings. `bind_error` is why the
/// value is not a socket address, if it is not one.
pub open spec fn apply_flag(flag: Seq<char>, value: Seq<char>, bind_error: Option<Seq<char>>, c: Settings)
    -> Result<Settings, Seq<char>>
{
    if flag == "--bind"@ {
        match bind_error {
            Some(e) => Err(value_error(flag, e)),
            None => Ok(Settings { bind: value, ..c }),
        }
    } else if flag == "--max-width"@ {
        match unsigned_decimal(value, u32::MAX as nat) {
            Ok(n) => Ok(Settings { max_width: n as u32, ..c }),
            Err(e) => Err(value_error(flag, e.spec_message())),
        }
    } else if flag == "--max-height"@ {
        match unsigned_decimal(value, u32::MAX as nat) {
            Ok(n) => Ok(Settings { max_height: n as u32, ..c }),
            Err(e) => Err(value_error(flag, e.spec_message())),
        }
    } else if flag == "--max-area"@ {
        match unsigned_decimal(value, u64::MAX as nat) {
            Ok(n) => Ok(Settings { max_area: n as u64, ..c }),
            Err(e) => Err(value_error(flag, e.spec_message())),
        }
    } else if flag == "--workers"@ {
        match unsigned_decimal(value, usize::MAX as nat) {
            Ok(n) => Ok(Settings { workers: n as usize, ..c }),
            Err(e) => Err(value_error(flag, e.spec_message())),
        }
    } else if flag == "--queue-depth"@ {
        match unsigned_decimal(value, usize::MAX as nat) {
            Ok(n) => Ok(Settings { queue_depth: n as usize, ..c }),
            Err(e) => Err(value_error(flag, e.spec_message())),
        }
    } else if flag == "--public-base"@ {
        Ok(Settings { public_base: Some(value), ..c })
    } else if flag == "--endpoint"@ {
        Ok(Settings { endpoint: Some(value), ..c })
    } else {
        Err("unknown flag "@ + flag + "\n"@ + USAGE@)
    }
}

/// The flags from position `i` on, applied pairwise from left to right; the
/// first failure is the answer. A flag without a value "needs a value".
pub open spec fn apply_flags(args: Seq<Seq<char>>, bind_errors: Seq<Option<Seq<char>>>, i: int, c: Settings)
    -> Result<Settings, Seq<char>>
    decreases args.len() - i,
{
    if i >= args.len() {
        Ok(c)
    } else if i + 1 >= args.len() {
        Err(args[i] + " needs a value"@)
    } else {
        match apply_flag(args[i], args[i + 1], bind_errors[i + 1], c) {
            Err(e) => Err(e),
            Ok(next) => apply_flags(args, bind_errors, i + 2, next),
        }
    }
}

/// The outcome of the command line `args` (program name excluded).
pub open spec fn command_line(args: Seq<Seq<char>>, bind_errors: Seq<Option<Seq<char>>>, default_workers: usize)
    -> Result<Settings, Seq<char>>
{
    if args.len() < 2 || args[0] != "serve"@ {
        Err(USAGE@)
    } else {
        match apply_flags(args, bind_errors, 2, defaults(args[1], default_workers)) {
            Err(e) => Err(e),
            Ok(c) => if c.workers == 0 {
                Err("--workers must be at least 1"@)
            } else {
                Ok(c)
            },
        }
    }
}

pub open spec fn texts(v: Seq<String>) -> Seq<Seq<char>> {
    v.map_values(|s: String| s@)
}

pub open spec fn option_texts(v: Seq<Option<String>>) -> Seq<Option<Seq<char>>> {
    v.map_values(|o: Option<String>| text_of(o))
}

fn same_text(a: &str, b: &str) -> (r: bool)
    ensures
        r == (a@ == b@),
{
    a.to_owned() == b.to_owned()
}

fn value_failure(flag: &str, reason: &str) -> (r: String)
    ensures
        r@ == value_error(flag@, reason@),
{
    let mut out = flag.to_owned();
    out.append(": ");
    out.append(reason);
    out
}

fn number_flag(flag: &str, value: &str, max: u64) -> (r: Result<u64, String>)
    ensures
        match unsigned_decimal(value@, max as nat) {
            Ok(n) => r == Ok::<u64, String>(n as u64) && n <= max,
            Err(e) => r matches Err(m) && m@ == value_error(flag@, e.spec_message()),
        },
{
    match parse_unsigned(value, max) {
        Ok(n) => Ok(n),
        Err(e) => Err(value_failure(flag, e.message())),
    }
}

/// Apply one flag with its value.
fn apply_one(config: &mut Config, flag: &str, value: &String, bind_error: &Option<String>) -> (r: Result<(), String>)
    ensures
        match apply_flag(flag@, value@, text_of(*bind_error), old(config).settings()) {
            Ok(c) => r is Ok && final(config).settings() == c,
            Err(e) => r matches Err(m) && m@ == e,
        },
{
    proof {
        reveal_strlit("--bind");
        reveal_strlit("--max-width");
        reveal_strlit("--max-height");
        reveal_strlit("--max-area");
        reveal_strlit("--workers");
        reveal_strlit("--queue-depth");
        reveal_strlit("--public-base");
        reveal_strlit("--endpoint");
    }
    if same_text(flag, "--bind") {
        match bind_error {
            Some(e) => Err(value_failure(flag, e.as_str())),
            None => {
                config.bind = value.clone();
                Ok(())
            },
        }
    } else if same_text(flag, "--max-width") {
        match number_flag(flag, value.as_str(), u32::MAX as u64) {
            Ok(n) => {
                config.max_width = n as u32;
                Ok(())
            },
            Err(m) => Err(m),
        }
    } else if same_text(flag, "--max-height") {
        match number_flag(flag, value.as_str(), u32::MAX as u64) {
            Ok(n) => {
                config.max_height = n as u32;
                Ok(())
            },
            Err(m) => Err(m),
        }
    } else if same_text(flag, "--max-area") {
        match number_flag(flag, value.as_str(), u64::MAX) {
            Ok(n) => {
                config.max_area = n;
                Ok(())
            },
            Err(m) => Err(m),
        }
    } else if same_text(flag, "--workers") {
        match number_flag(flag, value.as_str(), usize::MAX as u64) {
            Ok(n) => {
                config.workers = n as usize;
                Ok(())
            },
            Err(m) => Err(m),
        }
    } else if same_text(flag, "--queue-depth") {
        match number_flag(flag, value.as_str(), usize::MAX as u64) {
            Ok(n) => {
                config.queue_depth = n as usize;
                Ok(())
            },
            Err(m) => Err(m),
        }
    } else if same_text(flag, "--public-base") {
        config.public_base = Some(value.clone());
        Ok(())
    } else if same_text(flag, "--endpoint") {
        config.endpoint = Some(value.clone());
        Ok(())
    } else {
        let mut out = "unknown flag ".to_owned();
        out.append(flag);
        out.append("\n");
        out.append(USAGE);
        Err(out)
    }
}

/// Parse the command line (program name excluded). `bind_errors[i]` is why
/// `args[i]` is not a socket address, if it is not one;
/// `default_workers` is the worker count when `--workers` is absent.
pub fn parse_args(args: &Vec<String>, bind_errors: &Vec<Option<String>>, default_workers: usize)
    -> (r: Result<Config, String>)
    requires
        bind_errors.len() == args.len(),
    ensures
        match command_line(texts(args@), option_texts(bind_errors@), default_workers) {
            Ok(c) => r matches Ok(config) && config.settings() == c,
            Err(e) => r matches Err(m) && m@ == e,
        },
{
    let ghost words = texts(args@);
    let ghost errs = option_texts(bind_errors@);
    proof {
        reveal_strlit("serve");
    }
    proof {
        if args.len() >= 2 {
            assert(words[0] == args@[0]@);
            assert(words[1] == args@[1]@);
        }
    }
    if args.len() < 2 || !same_text(args[0].as_str(), "serve") {
        return Err(USAGE.to_owned());
    }
    let mut config = Config {
        root: args[1].clone(),
        bind: DEFAULT_BIND.to_owned(),
        max_width: 8192,
        max_height: 8192,
        max_area: 33_554_432,
        workers: default_workers,
        queue_depth: 64,
        public_base: None,
        endpoint: None,
    };
    proof {
        assert(config.settings() == defaults(words[1], default_workers));
    }
    let mut i: usize = 2;
    while i < args.len()
        invariant
            words == texts(args@),
            errs == option_texts(bind_errors@),
            bind_errors.len() == args.len(),
            words.len() == args.len(),
            errs.len() == args.len(),
            args.len() >= 2,
            words[0] == "serve"@,
            2 <= i,
            apply_flags(words, errs, 2, defaults(words[1], default_workers))
                == apply_flags(words, errs, i as int, config.settings()),
        decreases args.len() - i,
    {
        if i + 1 >= args.len() {
            proof {
                assert(words[i as int] == args@[i as int]@);
            }
            let mut out = args[i].clone();
            out.append(" needs a value");
            return Err(out);
        }
        let ghost before = config.settings();
        proof {
            assert(words[i as int] == args@[i as int]@);
            assert(words[i + 1] == args@[i + 1]@);
            assert(errs[i + 1] == text_of(bind_errors@[i + 1]));
        }
        let step = apply_one(&mut config, args[i].as_str(), &args[i + 1], &bind_errors[i + 1]);
        match step {
            Err(m) => {
                return Err(m);
            },
            Ok(()) => {},
        }
        i += 2;
    }
    if config.workers == 0 {
        return Err("--workers must be at least 1".to_owned());
    }
    Ok(config)
}

} // verus!
