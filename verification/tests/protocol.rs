use kv_store::command::execute::{command_parser, command_parser_at};
use kv_store::command::reply::{array, bulk, Reply};
use kv_store::command::{
    parse_command, Command, ListCommand, ParseError, ScalarCommand, SetCommand, SortedSetCommand,
};
use kv_store::database::data_structure::Score;
use kv_store::database::db::Database;

fn text(s: &str) -> String {
    s.to_string()
}

fn score_of_line(line: &str) -> Option<Score> {
    match parse_command(line) {
        Ok(command) => command
            .score_word()
            .and_then(|word| word.parse::<f64>().ok())
            .map(|x| Score::from_bits(x.to_bits())),
        Err(_) => None,
    }
}

fn send(db: &mut Database, line: &str, now: u64) -> String {
    let score = score_of_line(line);
    let reply = command_parser_at(db, line, score, now);
    let score_text = match &reply {
        Reply::Score(score) => f64::from_bits(score.to_bits()).to_string(),
        _ => String::new(),
    };
    reply.encode(&score_text)
}

#[test]
fn parse_reads_scalar_commands() {
    assert_eq!(
        parse_command("SET k v"),
        Ok(Command::Scalar(ScalarCommand::SetValue { key: text("k"), value: text("v"), ttl: None }))
    );
    assert_eq!(
        parse_command("SET k v EXP 10"),
        Ok(Command::Scalar(ScalarCommand::SetValue {
            key: text("k"),
            value: text("v"),
            ttl: Some(10)
        }))
    );
    assert_eq!(parse_command("GET k"), Ok(Command::Scalar(ScalarCommand::Get { key: text("k") })));
    assert_eq!(parse_command("DEL k"), Ok(Command::Scalar(ScalarCommand::Del { key: text("k") })));
    assert_eq!(
        parse_command("  GET \t k  "),
        Ok(Command::Scalar(ScalarCommand::Get { key: text("k") }))
    );
}

#[test]
fn parse_reads_list_commands() {
    assert_eq!(
        parse_command("LPUSH k v"),
        Ok(Command::List(ListCommand::LPush { key: text("k"), value: text("v") }))
    );
    assert_eq!(
        parse_command("RPUSH k v"),
        Ok(Command::List(ListCommand::RPush { key: text("k"), value: text("v") }))
    );
    assert_eq!(parse_command("LPOP k"), Ok(Command::List(ListCommand::LPop { key: text("k") })));
    assert_eq!(parse_command("RPOP k"), Ok(Command::List(ListCommand::RPop { key: text("k") })));
    assert_eq!(
        parse_command("LRANGE 1 2 k"),
        Ok(Command::List(ListCommand::LRange { start: 1, end: 2, key: text("k") }))
    );
}

#[test]
fn parse_reads_set_commands() {
    assert_eq!(
        parse_command("SADD k v"),
        Ok(Command::Members(SetCommand::SAdd { key: text("k"), value: text("v") }))
    );
    assert_eq!(
        parse_command("SREM k v"),
        Ok(Command::Members(SetCommand::SRem { key: text("k"), value: text("v") }))
    );
    assert_eq!(
        parse_command("SMEMBERS k"),
        Ok(Command::Members(SetCommand::SMembers { key: text("k") }))
    );
    assert_eq!(
        parse_command("SISMEMBER k m"),
        Ok(Command::Members(SetCommand::SIsMember { key: text("k"), member: text("m") }))
    );
}

#[test]
fn parse_reads_sorted_set_commands() {
    assert_eq!(
        parse_command("ZADD 1.5 m k"),
        Ok(Command::Sorted(SortedSetCommand::ZAdd {
            score: text("1.5"),
            member: text("m"),
            key: text("k")
        }))
    );
    assert_eq!(
        parse_command("ZADD abc m k"),
        Ok(Command::Sorted(SortedSetCommand::ZAdd {
            score: text("abc"),
            member: text("m"),
            key: text("k")
        }))
    );
    assert_eq!(
        parse_command("ZREM k m"),
        Ok(Command::Sorted(SortedSetCommand::ZRem { key: text("k"), member: text("m") }))
    );
    assert_eq!(
        parse_command("ZRANGE k 0 5"),
        Ok(Command::Sorted(SortedSetCommand::ZRange { key: text("k"), start: 0, end: 5 }))
    );
    assert_eq!(
        parse_command("ZSCORE k m"),
        Ok(Command::Sorted(SortedSetCommand::ZScore { key: text("k"), member: text("m") }))
    );
}

#[test]
fn parse_rejects_numbers_that_cannot_be_read() {
    assert_eq!(parse_command("SET k v EXP abc"), Err(ParseError::InvalidTtl));
    assert_eq!(parse_command("SET k v EXP -1"), Err(ParseError::InvalidTtl));
    assert_eq!(parse_command("SET k v EXP 1.5"), Err(ParseError::InvalidTtl));
    assert_eq!(parse_command("SET k v EXP 18446744073709551616"), Err(ParseError::InvalidTtl));
    assert_eq!(parse_command("LRANGE x 2 k"), Err(ParseError::InvalidStartIndex));
    assert_eq!(parse_command("LRANGE 1 y k"), Err(ParseError::InvalidStartIndex));
    assert_eq!(parse_command("LRANGE -1 2 k"), Err(ParseError::InvalidStartIndex));
    assert_eq!(parse_command("ZRANGE k x 2"), Err(ParseError::InvalidStartIndex));
    assert_eq!(parse_command("ZRANGE k x y"), Err(ParseError::InvalidStartIndex));
    assert_eq!(parse_command("ZRANGE k 1 y"), Err(ParseError::InvalidEndIndex));
    assert_eq!(
        parse_command("ZRANGE k 1 99999999999999999999999"),
        Err(ParseError::InvalidEndIndex)
    );
}

#[test]
fn parse_rejects_what_is_no_command() {
    for line in [
        "",
        "   ",
        "GET",
        "GET k extra",
        "get k",
        "Set k v",
        "SET k",
        "SET k v EXP",
        "SET k v exp 5",
        "SET k v TTL 5",
        "SET k v EXP 5 more",
        "LPUSH k",
        "LRANGE 0 1",
        "ZADD 1 m",
        "ZRANGE k 0",
        "PING",
        "GETX k",
        "ZADD 1 m k extra",
        "a b c d e f",
    ] {
        assert_eq!(parse_command(line), Err(ParseError::UnknownCommand), "{:?}", line);
    }
}

#[test]
fn score_word_is_the_score_of_zadd_only() {
    assert_eq!(parse_command("ZADD 1.5 m k").unwrap().score_word(), Some("1.5"));
    assert_eq!(parse_command("ZSCORE k m").unwrap().score_word(), None);
    assert_eq!(parse_command("GET k").unwrap().score_word(), None);
}

#[test]
fn replies_are_written_for_the_wire() {
    assert_eq!(Reply::Okay.encode(""), "+OK\r\n");
    assert_eq!(Reply::Missing.encode(""), "$-1\r\n");
    assert_eq!(Reply::Deleted(true).encode(""), "$-1\r\n");
    assert_eq!(Reply::Deleted(false).encode(""), "$-0\r\n");
    assert_eq!(Reply::Bulk(text("hello")).encode(""), "$5\r\nhello\r\n");
    assert_eq!(Reply::Bulk(text("")).encode("x"), "$0\r\n\r\n");
    assert_eq!(Reply::NotFound.encode(""), "NOT FOUND\r\n");
    assert_eq!(Reply::Flag(true).encode(""), "$1\r\n");
    assert_eq!(Reply::Flag(false).encode(""), "$0\r\n");
    assert_eq!(Reply::Found(true).encode(""), "$FOUND!\r\n");
    assert_eq!(Reply::Found(false).encode(""), "$NOT FOUND!\r\n");
    assert_eq!(Reply::Integer(true).encode(""), ":1\r\n");
    assert_eq!(Reply::Integer(false).encode(""), ":0\r\n");
    assert_eq!(Reply::Score(Score::from_bits(0)).encode("2.5"), "$3\r\n2.5\r\n");
    assert_eq!(
        Reply::Array(vec![text("a"), text("bcd")]).encode(""),
        "*2\r\n$1\r\na\r\n$3\r\nbcd\r\n"
    );
    assert_eq!(Reply::Array(vec![]).encode(""), "*0\r\n");
}

#[test]
fn errors_are_written_for_the_wire() {
    assert_eq!(
        Reply::Error(ParseError::UnknownCommand).encode(""),
        "-ERR\r\nUnknow commnd, please try again!!"
    );
    assert_eq!(
        Reply::Error(ParseError::InvalidTtl).encode(""),
        "-ERR Invalid time to live value\r\n"
    );
    assert_eq!(
        Reply::Error(ParseError::InvalidStartIndex).encode(""),
        "-ERR Invalid start index\r\n"
    );
    assert_eq!(Reply::Error(ParseError::InvalidEndIndex).encode(""), "-ERR Invalid end index\r\n");
    assert_eq!(Reply::Error(ParseError::InvalidScore).encode(""), "-ERR Invalid score\r\n");
    assert_eq!(ParseError::InvalidScore.message(), "Invalid score");
}

#[test]
fn bulk_counts_bytes() {
    assert_eq!(bulk("\u{e9}t\u{e9}"), "$5\r\n\u{e9}t\u{e9}\r\n");
    assert_eq!(bulk("\u{4e2d}"), "$3\r\n\u{4e2d}\r\n");
    assert_eq!(bulk("0123456789"), "$10\r\n0123456789\r\n");
    let items: Vec<String> = (0..12).map(|i| i.to_string()).collect();
    let mut expected = String::from("*12\r\n");
    for item in &items {
        expected.push_str(&format!("${}\r\n{}\r\n", item.len(), item));
    }
    assert_eq!(array(&items), expected);
}

#[test]
fn scalar_commands_reply_as_the_protocol_says() {
    let mut db = Database::new();
    assert_eq!(send(&mut db, "GET k", 0), "$-1\r\n");
    assert_eq!(send(&mut db, "SET k hello", 0), "+OK\r\n");
    assert_eq!(send(&mut db, "GET k", 1), "$5\r\nhello\r\n");
    assert_eq!(send(&mut db, "SET k v EXP 1", 10), "+OK\r\n");
    assert_eq!(send(&mut db, "GET k", 1_000_000_010), "$1\r\nv\r\n");
    assert_eq!(send(&mut db, "GET k", 1_000_000_011), "$-1\r\n");
    assert_eq!(send(&mut db, "DEL k", 1_000_000_012), "$-0\r\n");
    assert_eq!(send(&mut db, "SET k w", 0), "+OK\r\n");
    assert_eq!(send(&mut db, "DEL k", 0), "$-1\r\n");
    assert_eq!(send(&mut db, "DEL k", 0), "$-0\r\n");
}

#[test]
fn list_commands_reply_as_the_protocol_says() {
    let mut db = Database::new();
    assert_eq!(send(&mut db, "LRANGE 0 1 k", 0), "NOT FOUND\r\n");
    assert_eq!(send(&mut db, "LPOP k", 0), "+OK\r\n");
    assert_eq!(send(&mut db, "LPUSH k a", 0), "+OK\r\n");
    assert_eq!(send(&mut db, "LPUSH k b", 0), "+OK\r\n");
    assert_eq!(send(&mut db, "RPUSH k c", 0), "+OK\r\n");
    assert_eq!(send(&mut db, "LRANGE 0 5 k", 0), "*3\r\n$1\r\nb\r\n$1\r\na\r\n$1\r\nc\r\n");
    assert_eq!(send(&mut db, "LRANGE 2 1 k", 0), "*0\r\n");
    assert_eq!(send(&mut db, "LPOP k", 0), "$1\r\nb\r\n");
    assert_eq!(send(&mut db, "RPOP k", 0), "$1\r\nc\r\n");
    assert_eq!(send(&mut db, "RPOP k", 0), "$1\r\na\r\n");
    assert_eq!(send(&mut db, "RPOP k", 0), "+OK\r\n");
    assert_eq!(send(&mut db, "LRANGE 0 5 k", 0), "*0\r\n");
}

#[test]
fn set_commands_reply_as_the_protocol_says() {
    let mut db = Database::new();
    assert_eq!(send(&mut db, "SMEMBERS k", 0), "NOT FOUND\r\n");
    assert_eq!(send(&mut db, "SISMEMBER k x", 0), "$NOT FOUND!\r\n");
    assert_eq!(send(&mut db, "SREM k x", 0), "$0\r\n");
    assert_eq!(send(&mut db, "SADD k x", 0), "$1\r\n");
    assert_eq!(send(&mut db, "SADD k x", 0), "$0\r\n");
    assert_eq!(send(&mut db, "SISMEMBER k x", 0), "$FOUND!\r\n");
    assert_eq!(send(&mut db, "SMEMBERS k", 0), "*1\r\n$1\r\nx\r\n");
    assert_eq!(send(&mut db, "SREM k x", 0), "$1\r\n");
    assert_eq!(send(&mut db, "SMEMBERS k", 0), "*0\r\n");
}

#[test]
fn sorted_set_commands_reply_as_the_protocol_says() {
    let mut db = Database::new();
    assert_eq!(send(&mut db, "ZRANGE k 0 1", 0), "$-1\r\n");
    assert_eq!(send(&mut db, "ZSCORE k a", 0), "$-1\r\n");
    assert_eq!(send(&mut db, "ZREM k a", 0), ":0\r\n");
    assert_eq!(send(&mut db, "ZADD 1 a k", 0), ":1\r\n");
    assert_eq!(send(&mut db, "ZADD 2 b k", 0), ":1\r\n");
    assert_eq!(send(&mut db, "ZRANGE k 0 1", 0), "*2\r\n$1\r\na\r\n$1\r\nb\r\n");
    assert_eq!(send(&mut db, "ZADD 1 c k", 0), ":1\r\n");
    assert_eq!(send(&mut db, "ZRANGE k 0 2", 0), "*3\r\n$1\r\na\r\n$1\r\nc\r\n$1\r\nb\r\n");
    assert_eq!(send(&mut db, "ZADD 1.0 c k", 0), ":0\r\n");
    assert_eq!(send(&mut db, "ZADD 2.5 c k", 0), ":1\r\n");
    assert_eq!(send(&mut db, "ZSCORE k c", 0), "$3\r\n2.5\r\n");
    assert_eq!(send(&mut db, "ZSCORE k a", 0), "$1\r\n1\r\n");
    assert_eq!(send(&mut db, "ZRANGE k 0 9", 0), "*3\r\n$1\r\na\r\n$1\r\nb\r\n$1\r\nc\r\n");
    assert_eq!(send(&mut db, "ZRANGE k 3 1", 0), "*0\r\n");
    assert_eq!(send(&mut db, "ZREM k a", 0), ":1\r\n");
    assert_eq!(send(&mut db, "ZSCORE k a", 0), "$-1\r\n");
}

#[test]
fn rejected_lines_change_nothing() {
    let mut db = Database::new();
    assert_eq!(send(&mut db, "SET k v", 0), "+OK\r\n");
    assert_eq!(send(&mut db, "SET k w EXP soon", 0), "-ERR Invalid time to live value\r\n");
    assert_eq!(send(&mut db, "GET k", 0), "$1\r\nv\r\n");
    assert_eq!(send(&mut db, "ZADD high m z", 0), "-ERR Invalid score\r\n");
    assert_eq!(send(&mut db, "ZRANGE z 0 5", 0), "$-1\r\n");
    assert_eq!(send(&mut db, "LRANGE a b l", 0), "-ERR Invalid start index\r\n");
    assert_eq!(send(&mut db, "ZRANGE z 0 b", 0), "-ERR Invalid end index\r\n");
    assert_eq!(send(&mut db, "HELLO", 0), "-ERR\r\nUnknow commnd, please try again!!");
    assert_eq!(send(&mut db, "", 0), "-ERR\r\nUnknow commnd, please try again!!");
}

#[test]
fn execute_carries_out_a_parsed_command() {
    let mut db = Database::new();
    let push = parse_command("RPUSH k a").unwrap();
    assert_eq!(db.execute_at(push, None, 0), Reply::Okay);
    let add = parse_command("ZADD 3 m z").unwrap();
    assert_eq!(db.execute_at(add.clone(), None, 0), Reply::Error(ParseError::InvalidScore));
    let three = Score::from_bits(3.0f64.to_bits());
    assert_eq!(db.execute_at(add, Some(three), 0), Reply::Integer(true));
    let ask = parse_command("ZSCORE z m").unwrap();
    assert_eq!(db.execute_at(ask, None, 0), Reply::Score(three));
    let range = parse_command("LRANGE 0 0 k").unwrap();
    assert_eq!(db.execute_at(range, None, 0), Reply::Array(vec![text("a")]));
}

#[test]
fn commands_run_by_the_clock_of_the_store() {
    let mut db = Database::new();
    assert_eq!(command_parser(&mut db, "SET k v EXP 3600", None), Reply::Okay);
    assert_eq!(command_parser(&mut db, "GET k", None), Reply::Bulk(text("v")));
    assert_eq!(command_parser(&mut db, "SET gone v EXP 0", None), Reply::Okay);
    let set_by = db.clock.now();
    while db.clock.now() == set_by {}
    assert_eq!(command_parser(&mut db, "GET gone", None), Reply::Missing);
    let push = parse_command("RPUSH l a").unwrap();
    assert_eq!(db.execute(push, None), Reply::Okay);
    assert_eq!(command_parser(&mut db, "NOPE", None), Reply::Error(ParseError::UnknownCommand));
}
