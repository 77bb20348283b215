use iiif_core::config::{parse_args, Config, DEFAULT_BIND, USAGE};
use iiif_core::number::{parse_unsigned, NumberError};

fn args(words: &[&str]) -> Vec<String> {
    words.iter().map(|w| (*w).to_owned()).collect()
}

fn no_bind_errors(words: &[&str]) -> Vec<Option<String>> {
    vec![None; words.len()]
}

fn run(words: &[&str]) -> Result<Config, String> {
    parse_args(&args(words), &no_bind_errors(words), 4)
}

#[test]
fn defaults_without_flags() {
    let c = run(&["serve", "./images"]).unwrap();
    assert_eq!(
        c,
        Config {
            root: "./images".to_owned(),
            bind: DEFAULT_BIND.to_owned(),
            max_width: 8192,
            max_height: 8192,
            max_area: 33_554_432,
            workers: 4,
            queue_depth: 64,
            public_base: None,
            endpoint: None,
        }
    );
    assert_eq!(DEFAULT_BIND, "127.0.0.1:6363");
}

#[test]
fn every_flag_sets_its_knob() {
    let c = run(&[
        "serve", "/srv", "--bind", "0.0.0.0:80", "--max-width", "100", "--max-height", "+200", "--max-area",
        "18446744073709551615", "--workers", "8", "--queue-depth", "0", "--public-base", "https://x/y",
    ])
    .unwrap();
    assert_eq!(c.bind, "0.0.0.0:80");
    assert_eq!((c.max_width, c.max_height, c.max_area), (100, 200, u64::MAX));
    assert_eq!((c.workers, c.queue_depth), (8, 0));
    assert_eq!(c.public_base, Some("https://x/y".to_owned()));
}

#[test]
fn later_flags_win() {
    let c = run(&["serve", "/srv", "--workers", "2", "--workers", "3"]).unwrap();
    assert_eq!(c.workers, 3);
}

#[test]
fn malformed_commands_get_the_usage() {
    assert_eq!(run(&[]), Err(USAGE.to_owned()));
    assert_eq!(run(&["serve"]), Err(USAGE.to_owned()));
    assert_eq!(run(&["check", "/srv"]), Err(USAGE.to_owned()));
    assert!(USAGE.starts_with("usage: iiif-server serve <root> [--bind ADDR]"));
    assert!(USAGE.ends_with("[--queue-depth N] [--public-base URL] [--endpoint URL]"));
}

#[test]
fn flag_without_value() {
    assert_eq!(run(&["serve", "/srv", "--bind"]), Err("--bind needs a value".to_owned()));
    assert_eq!(run(&["serve", "/srv", "--nope"]), Err("--nope needs a value".to_owned()));
}

#[test]
fn unknown_flag_names_itself_and_the_usage() {
    assert_eq!(run(&["serve", "/srv", "--nope", "1"]), Err(format!("unknown flag --nope\n{USAGE}")));
}

#[test]
fn bad_numbers_name_the_flag_and_the_reason() {
    assert_eq!(
        run(&["serve", "/srv", "--max-width", "abc"]),
        Err("--max-width: invalid digit found in string".to_owned())
    );
    assert_eq!(
        run(&["serve", "/srv", "--max-height", "4294967296"]),
        Err("--max-height: number too large to fit in target type".to_owned())
    );
    assert_eq!(
        run(&["serve", "/srv", "--queue-depth", ""]),
        Err("--queue-depth: cannot parse integer from empty string".to_owned())
    );
    assert_eq!(
        run(&["serve", "/srv", "--max-area", "-1"]),
        Err("--max-area: invalid digit found in string".to_owned())
    );
}

#[test]
fn first_failure_wins() {
    assert_eq!(
        run(&["serve", "/srv", "--workers", "x", "--nope", "1"]),
        Err("--workers: invalid digit found in string".to_owned())
    );
    assert_eq!(run(&["serve", "/srv", "--workers", "0", "--nope", "1"]), Err(format!("unknown flag --nope\n{USAGE}")));
}

#[test]
fn zero_workers_are_refused() {
    assert_eq!(run(&["serve", "/srv", "--workers", "0"]), Err("--workers must be at least 1".to_owned()));
    assert_eq!(parse_args(&args(&["serve", "/srv"]), &no_bind_errors(&["serve", "/srv"]), 0), Err("--workers must be at least 1".to_owned()));
}

#[test]
fn bind_errors_are_reported_with_the_flag() {
    // only the value after `--bind` is read as an address; other positions
    // may fail to parse without effect
    let ok_words = ["serve", "/srv", "--bind", "[::1]:80"];
    let mut ignored: Vec<Option<String>> = vec![Some("not an address".to_owned()); ok_words.len()];
    ignored[3] = None;
    assert_eq!(parse_args(&args(&ok_words), &ignored, 4).unwrap().bind, "[::1]:80");
    let words = ["serve", "/srv", "--bind", "nowhere"];
    let mut errors: Vec<Option<String>> = vec![None; words.len()];
    errors[3] = Some("invalid socket address syntax".to_owned());
    assert_eq!(
        parse_args(&args(&words), &errors, 4),
        Err("--bind: invalid socket address syntax".to_owned())
    );
}

#[test]
fn number_parsing_agrees_with_std() {
    let samples = [
        "", "0", "7", "+7", "-7", "+", "-", "++1", "00042", "4294967295", "4294967296", "99999999999x",
        "12a", " 1", "1 ", "١", "18446744073709551615", "18446744073709551616", "340282366920938463463374607431768211456",
    ];
    for s in samples {
        let ours = parse_unsigned(s, u32::MAX as u64);
        match s.parse::<u32>() {
            Ok(v) => assert_eq!(ours, Ok(u64::from(v)), "{s:?}"),
            Err(e) => assert_eq!(ours.map_err(|k| k.message()), Err(e.to_string().as_str()), "{s:?}"),
        }
        let ours = parse_unsigned(s, u64::MAX);
        match s.parse::<u64>() {
            Ok(v) => assert_eq!(ours, Ok(v), "{s:?}"),
            Err(e) => assert_eq!(ours.map_err(|k| k.message()), Err(e.to_string().as_str()), "{s:?}"),
        }
    }
    assert_eq!(parse_unsigned("", 10), Err(NumberError::Empty));
    assert_eq!(parse_unsigned("11", 10), Err(NumberError::TooLarge));
    assert_eq!(parse_unsigned("1x", 10), Err(NumberError::InvalidDigit));
}

#[test]
fn object_store_root_with_endpoint() {
    let c = run(&["serve", "s3://bucket/prefix", "--endpoint", "https://objects.example.com"]).unwrap();
    assert_eq!(c.root, "s3://bucket/prefix");
    assert_eq!(c.endpoint, Some("https://objects.example.com".to_owned()));
    assert_eq!(run(&["serve", "/srv", "--endpoint"]), Err("--endpoint needs a value".to_owned()));
}
