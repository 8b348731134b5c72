use leaks::archive::{plan_member, ContentKind, Member, MemberAction};
use leaks::indexer::{
    input_kind, source_of, Indexer, InputKind, MemberLines, Outcome, SetupError, Source,
};
use leaks::SuffixIndex;

const PNG_HEAD: [u8; 8] = [0x89, b'P', b'N', b'G', 0x0d, 0x0a, 0x1a, 0x0a];
const JPEG_HEAD: [u8; 4] = [0xff, 0xd8, 0xff, 0xe0];
const GZIP_HEAD: [u8; 4] = [0x1f, 0x8b, 0x08, 0x00];

fn indexer(input_type: &str) -> Indexer {
    Indexer::new(input_type, SuffixIndex::new("com net co.uk").unwrap()).unwrap()
}

fn member(name: &str, extension: Option<&str>, head: &[u8]) -> Member {
    Member {
        name: name.to_string(),
        extension: extension.map(|e| e.to_string()),
        head: head.to_vec(),
    }
}

fn lines(text: &[&str]) -> Vec<String> {
    text.iter().map(|l| l.to_string()).collect()
}

fn marker(action: MemberAction) -> Option<String> {
    match action {
        MemberAction::Skip => None,
        MemberAction::Read { marker } => Some(marker),
    }
}

#[test]
fn input_kinds_are_named() {
    assert_eq!(input_kind("plain"), Some(InputKind::Plain));
    assert_eq!(input_kind("tar.gz"), Some(InputKind::TarGz));
    assert_eq!(input_kind("zip"), None);
    assert_eq!(input_kind(""), None);
    assert_eq!(input_kind("Plain"), None);
}

#[test]
fn dash_stands_for_standard_input() {
    assert_eq!(source_of("-"), Source::Stdin);
    assert_eq!(source_of("dump.txt"), Source::File);
    assert_eq!(source_of("--"), Source::File);
    assert_eq!(source_of(""), Source::File);
}

#[test]
fn indexer_refuses_unknown_input() {
    let made = Indexer::new("rar", SuffixIndex::new("com").unwrap());
    assert!(matches!(made, Err(SetupError::UnsupportedInput)));
    assert_eq!(indexer("plain").input_kind(), InputKind::Plain);
    assert_eq!(indexer("tar.gz").input_kind(), InputKind::TarGz);
}

#[test]
fn good_line_gives_a_row() {
    let ix = indexer("plain");
    match ix.read_entry("  wolya@mail.gotadsl.co.uk:password!  \n") {
        Outcome::Record(r) => {
            assert_eq!(r.domain, "gotadsl.co.uk");
            assert_eq!(r.subdomain, "mail");
            assert_eq!(r.username, "wolya");
            assert_eq!(r.password, "password!");
        }
        Outcome::Quarantined(q) => panic!("quarantined: {q}"),
    }
}

#[test]
fn bad_line_is_quarantined_as_it_came() {
    let ix = indexer("plain");
    match ix.read_entry("  not a credential ") {
        Outcome::Record(r) => panic!("parsed: {r:?}"),
        Outcome::Quarantined(q) => assert_eq!(q, "  not a credential \n"),
    }
    match ix.read_entry("") {
        Outcome::Record(r) => panic!("parsed: {r:?}"),
        Outcome::Quarantined(q) => assert_eq!(q, "\n"),
    }
}

#[test]
fn every_line_lands_in_exactly_one_sink() {
    let ix = indexer("plain");
    let input = lines(&[
        "wolya@yandex.net:5555",
        "garbage",
        "user:pass@example.com",
        "",
        "user@wana_doo.fr:pw",
        "a@b.example.co.uk;x",
    ]);
    let out = ix.entry_reader(&input);
    assert_eq!(out.records.len() + out.quarantine.len(), input.len());
    let rows: Vec<(&str, &str, &str, &str)> = out
        .records
        .iter()
        .map(|r| (r.domain.as_str(), r.subdomain.as_str(), r.username.as_str(), r.password.as_str()))
        .collect();
    assert_eq!(
        rows,
        vec![
            ("yandex.net", "", "wolya", "5555"),
            ("example.com", "", "user", "pass"),
            ("example.co.uk", "b", "a", "x"),
        ]
    );
    assert_eq!(out.quarantine, vec!["garbage\n", "\n", "user@wana_doo.fr:pw\n"]);
}

#[test]
fn no_lines_give_nothing() {
    let ix = indexer("plain");
    let out = ix.entry_reader(&Vec::new());
    assert!(out.records.is_empty());
    assert!(out.quarantine.is_empty());
}

#[test]
fn binary_content_is_skipped() {
    for kind in [ContentKind::Doc, ContentKind::Image, ContentKind::Text, ContentKind::Archive] {
        assert_eq!(marker(plan_member(Some(kind), "photo", None)), None);
    }
}

#[test]
fn other_content_is_read() {
    for kind in [
        ContentKind::App,
        ContentKind::Audio,
        ContentKind::Book,
        ContentKind::Font,
        ContentKind::Video,
        ContentKind::Custom,
    ] {
        assert_eq!(
            marker(plan_member(Some(kind), "dump.txt", Some("txt"))),
            Some("//dump.txt\n".to_string())
        );
    }
    assert_eq!(marker(plan_member(None, "dump", None)), Some("//dump\n".to_string()));
    assert_eq!(marker(plan_member(None, "", None)), Some("//\n".to_string()));
}

#[test]
fn earlier_output_is_skipped() {
    assert_eq!(marker(plan_member(None, "out.csv", Some("csv"))), None);
    assert_eq!(
        marker(plan_member(None, "out.CSV", Some("CSV"))),
        Some("//out.CSV\n".to_string())
    );
    assert_eq!(
        marker(plan_member(None, "out.csvx", Some("csvx"))),
        Some("//out.csvx\n".to_string())
    );
}

#[test]
fn leading_bytes_are_sniffed() {
    assert_eq!(marker(member("a.png", Some("png"), &PNG_HEAD).action()), None);
    assert_eq!(marker(member("a", None, &JPEG_HEAD).action()), None);
    assert_eq!(marker(member("a.gz", Some("gz"), &GZIP_HEAD).action()), None);
    assert_eq!(marker(member("a.xml", None, b"<?xml version=\"1.0\"?><a/>").action()), None);
    assert_eq!(
        marker(member("dump.txt", Some("txt"), b"wolya@yandex.net:5555\n").action()),
        Some("//dump.txt\n".to_string())
    );
    assert_eq!(marker(member("empty", None, b"").action()), Some("//empty\n".to_string()));
    assert_eq!(marker(member("old.csv", Some("csv"), b"a,b,c,d\n").action()), None);
}

#[test]
fn image_member_reaches_neither_sink() {
    let ix = indexer("tar.gz");
    let members = vec![MemberLines {
        member: member("photo.png", Some("png"), &PNG_HEAD),
        lines: lines(&["wolya@yandex.net:5555", "garbage"]),
    }];
    let out = ix.process_archive(&members);
    assert!(out.records.is_empty());
    assert!(out.quarantine.is_empty());
}

#[test]
fn members_are_read_in_archive_order() {
    let ix = indexer("tar.gz");
    let members = vec![
        MemberLines {
            member: member("one.txt", Some("txt"), b"wolya@yandex.net:5555"),
            lines: lines(&["wolya@yandex.net:5555", "broken one"]),
        },
        MemberLines {
            member: member("photo.jpg", Some("jpg"), &JPEG_HEAD),
            lines: lines(&["skipped@example.com:pw", "skipped"]),
        },
        MemberLines {
            member: member("results.csv", Some("csv"), b"example.com,,a,b"),
            lines: lines(&["example.com,,a,b"]),
        },
        MemberLines { member: member("none", None, b""), lines: lines(&[]) },
        MemberLines {
            member: member("two", None, b"broken two"),
            lines: lines(&["broken two", "user:pw@Sub.Example.COM"]),
        },
    ];
    let out = ix.process_archive(&members);
    let rows: Vec<(&str, &str, &str, &str)> = out
        .records
        .iter()
        .map(|r| (r.domain.as_str(), r.subdomain.as_str(), r.username.as_str(), r.password.as_str()))
        .collect();
    assert_eq!(
        rows,
        vec![("yandex.net", "", "wolya", "5555"), ("example.com", "sub", "user", "pw")]
    );
    assert_eq!(
        out.quarantine,
        vec!["//one.txt\n", "broken one\n", "//none\n", "//two\n", "broken two\n"]
    );
}
