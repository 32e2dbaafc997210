use pedis_core::decoder::{decimal_text, decode, Decoder};
use pedis_core::redis_command::RedisCommand;

fn frame(args: &[&str]) -> String {
    let mut s = format!("*{}\r\n", args.len());
    for a in args {
        s.push_str(&format!("${}\r\n{}\r\n", a.len(), a));
    }
    s
}

fn params(cmds: &[RedisCommand]) -> Vec<Vec<String>> {
    cmds.iter().map(|c| c.params()).collect()
}

#[test]
fn decodes_single_frame() {
    let (cmds, rest) = decode("*3\r\n$3\r\nSET\r\n$3\r\nkey\r\n$11\r\nHello World\r\n");
    assert_eq!(vec![vec!["SET", "key", "Hello World"]], params(&cmds));
    assert_eq!(40, rest);
}

#[test]
fn decodes_pipelined_frames_in_order() {
    let input = format!(
        "{}{}{}",
        frame(&["SET", "a", "1"]),
        frame(&["CONFIG", "GET", "save"]),
        frame(&["PING"])
    );
    let (cmds, rest) = decode(&input);
    assert_eq!(
        vec![vec!["SET", "a", "1"], vec!["CONFIG", "GET", "save"], vec!["PING"]],
        params(&cmds)
    );
    assert_eq!(input.chars().count(), rest);
}

#[test]
fn payload_may_hold_line_breaks_and_markers() {
    let input = frame(&["SET", "k", "a\r\n*2\r\nb"]);
    let (cmds, _) = decode(&input);
    assert_eq!(vec![vec!["SET", "k", "a\r\n*2\r\nb"]], params(&cmds));
}

#[test]
fn empty_input_gives_nothing() {
    let (cmds, rest) = decode("");
    assert!(cmds.is_empty());
    assert_eq!(0, rest);
}

#[test]
fn zero_argument_frame_is_dropped() {
    let input = format!("*0\r\n{}", frame(&["PING"]));
    let (cmds, _) = decode(&input);
    assert_eq!(vec![vec!["PING"]], params(&cmds));
}

#[test]
fn malformed_frame_is_dropped_and_siblings_kept() {
    let input = format!("*2\r\n$3\r\nSET\r\nxx\r\n{}", frame(&["PING"]));
    let (cmds, _) = decode(&input);
    assert_eq!(vec![vec!["PING"]], params(&cmds));
    let (cmds, _) = decode(&format!("garbage{}", frame(&["GET", "k"])));
    assert_eq!(vec![vec!["GET", "k"]], params(&cmds));
    let (cmds, _) = decode(&format!("*\r\n$6\r\nCLIENT\r\n{}", frame(&["GET", "k"])));
    assert_eq!(vec![vec!["GET", "k"]], params(&cmds));
}

#[test]
fn wrong_length_is_malformed() {
    let (cmds, rest) = decode("*1\r\n$2\r\nabc\r\n");
    assert!(cmds.is_empty());
    assert_eq!(13, rest);
}

#[test]
fn partial_frame_stays_pending() {
    let (cmds, rest) = decode("*1\r\n$4\r\nPI");
    assert!(cmds.is_empty());
    assert_eq!(0, rest);
    let input = format!("{}*2\r\n$3\r\nGET", frame(&["PING"]));
    let (cmds, rest) = decode(&input);
    assert_eq!(vec![vec!["PING"]], params(&cmds));
    assert_eq!(14, rest);
}

#[test]
fn oversized_count_waits_for_more() {
    let (cmds, rest) = decode("*99\r\n$1\r\na\r\n");
    assert!(cmds.is_empty());
    assert_eq!(0, rest);
}

#[test]
fn decoder_joins_chunks_split_anywhere() {
    let input = format!("{}{}", frame(&["SET", "key", "Hello World"]), frame(&["CONFIG", "x"]));
    let chars: Vec<char> = input.chars().collect();
    for cut in 0..=chars.len() {
        let first: String = chars[..cut].iter().collect();
        let second: String = chars[cut..].iter().collect();
        let mut d = Decoder::new();
        let mut got = params(&d.feed(&first));
        got.extend(params(&d.feed(&second)));
        assert_eq!(
            vec![vec!["SET", "key", "Hello World"], vec!["CONFIG", "x"]],
            got,
            "cut at {}",
            cut
        );
        assert_eq!("", d.pending_text());
    }
}

#[test]
fn decoder_keeps_unfinished_tail() {
    let mut d = Decoder::new();
    let cmds = d.feed("*1\r\n$4\r\nPING\r\n*1\r\n$4\r\nPO");
    assert_eq!(vec![vec!["PING"]], params(&cmds));
    assert_eq!("*1\r\n$4\r\nPO", d.pending_text());
    let cmds = d.feed("NG\r\n");
    assert_eq!(vec![vec!["PONG"]], params(&cmds));
    assert_eq!("", d.pending_text());
}

#[test]
fn multibyte_payload_counts_bytes() {
    let (cmds, rest) = decode("*2\r\n$3\r\nSET\r\n$4\r\néü\r\n");
    assert_eq!(vec![vec!["SET", "éü"]], params(&cmds));
    assert_eq!(21, rest);
    let (cmds, rest) = decode("*1\r\n$2\r\né\r\n");
    assert_eq!(vec![vec!["é"]], params(&cmds));
    assert_eq!(11, rest);
}

#[test]
fn character_count_length_is_malformed() {
    let input = format!("*1\r\n$1\r\né\r\n{}", frame(&["PING"]));
    let (cmds, _) = decode(&input);
    assert_eq!(vec![vec!["PING"]], params(&cmds));
}

#[test]
fn multibyte_frames_round_trip() {
    let input = format!("{}{}", frame(&["SET", "clé", "€ 10 — ok"]), frame(&["GET", "😀"]));
    let (cmds, rest) = decode(&input);
    assert_eq!(vec![vec!["SET", "clé", "€ 10 — ok"], vec!["GET", "😀"]], params(&cmds));
    assert_eq!(input.chars().count(), rest);
    let mut d = Decoder::new();
    let chars: Vec<char> = input.chars().collect();
    let mut got = Vec::new();
    for c in chars {
        got.extend(params(&d.feed(&c.to_string())));
    }
    assert_eq!(vec![vec!["SET", "clé", "€ 10 — ok"], vec!["GET", "😀"]], got);
}

#[test]
fn command_from_multibyte_fragment() {
    let c = RedisCommand::new("*1\r\n$2\r\né\r\n".to_string());
    assert_eq!(vec!["é"], c.params());
}

#[test]
fn decimal_text_writes_numbers() {
    assert_eq!("0", decimal_text(0));
    assert_eq!("7", decimal_text(7));
    assert_eq!("10", decimal_text(10));
    assert_eq!("1234567890", decimal_text(1234567890));
}
