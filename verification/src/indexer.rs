use crate::archive::{marker_of, Member, MemberAction};
use crate::extract::{
    compiles, entry_of, parse_entry, Patterns, CREDENTIALS_FIRST_PATTERN, DOMAIN_FIRST_PATTERN,
};
use crate::suffix_index::SuffixIndex;
use crate::text::{same_text, texts, trim, trimmed};
use vstd::prelude::*;
use vstd::string::StringExecFns;

verus! {

/// One row of the tabular output.
#[derive(Debug)]
pub struct Record {
    pub domain: String,
    pub subdomain: String,
    pub username: String,
    pub password: String,
}

/// A row by the characters of its columns.
pub struct Row {
    pub domain: Seq<char>,
    pub subdomain: Seq<char>,
    pub username: Seq<char>,
    pub password: Seq<char>,
}

impl View for Record {
    type V = Row;

    open spec fn view(&self) -> Row {
        Row {
            domain: self.domain@,
            subdomain: self.subdomain@,
            username: self.username@,
            password: self.password@,
        }
    }
}

/// Where a line ends up.
#[derive(Debug)]
pub enum Outcome {
    /// The line gave a row of the tabular output.
    Record(Record),
    /// The line goes to the quarantine sink, as the text given here.
    Quarantined(String),
}

/// Where a line ends up, by characters.
pub enum Landing {
    Row(Row),
    Quarantine(Seq<char>),
}

/// The kinds of input.
#[derive(Clone, Copy, Debug, PartialEq, Eq, Structural)]
pub enum InputKind {
    /// Lines of text.
    Plain,
    /// A gzip-compressed tar archive whose members hold lines of text.
    TarGz,
}

/// Where the input is read from.
#[derive(Clone, Copy, Debug, PartialEq, Eq, Structural)]
pub enum Source {
    /// Standard input, of unknown size.
    Stdin,
    /// The file at the path given.
    File,
}

/// Why an indexer could not be set up.
#[derive(Clone, Copy, Debug, PartialEq, Eq, Structural)]
pub enum SetupError {
    /// The input type is neither `plain` nor `tar.gz`.
    UnsupportedInput,
    /// A layout's pattern was rejected when it was compiled.
    PatternRejected,
}

/// What a run hands to the two sinks, each in input order.
#[derive(Debug)]
pub struct Output {
    pub records: Vec<Record>,
    pub quarantine: Vec<String>,
}

/// A member of an archive with the lines of its content.
pub struct MemberLines {
    pub member: Member,
    pub lines: Vec<String>,
}

/// The input kind that a name stands for.
pub open spec fn input_kind_of(name: Seq<char>) -> Option<InputKind> {
    if name == "tar.gz"@ {
        Some(InputKind::TarGz)
    } else if name == "plain"@ {
        Some(InputKind::Plain)
    } else {
        None
    }
}

/// Where a line ends up: its trimmed form is parsed; a line that gives no
/// entry is quarantined as it came, with a line feed after it.
pub open spec fn landing_of(line: Seq<char>, corpus: Seq<char>) -> Landing {
    match entry_of(trimmed(line), corpus) {
        Ok(f) => Landing::Row(Row { domain: f.3, subdomain: f.2, username: f.0, password: f.1 }),
        Err(_) => Landing::Quarantine(line + seq!['\n']),
    }
}

/// The rows that `lines` give, in order.
pub open spec fn rows_of(lines: Seq<Seq<char>>, corpus: Seq<char>) -> Seq<Row>
    decreases lines.len(),
{
    if lines.len() == 0 {
        Seq::<Row>::empty()
    } else {
        let before = rows_of(lines.drop_last(), corpus);
        match landing_of(lines.last(), corpus) {
            Landing::Row(r) => before.push(r),
            Landing::Quarantine(_) => before,
        }
    }
}

/// What `lines` send to quarantine, in order.
pub open spec fn quarantine_of(lines: Seq<Seq<char>>, corpus: Seq<char>) -> Seq<Seq<char>>
    decreases lines.len(),
{
    if lines.len() == 0 {
        Seq::<Seq<char>>::empty()
    } else {
        let before = quarantine_of(lines.drop_last(), corpus);
        match landing_of(lines.last(), corpus) {
            Landing::Row(_) => before,
            Landing::Quarantine(q) => before.push(q),
        }
    }
}

/// Records by their rows.
pub open spec fn rows(v: Seq<Record>) -> Seq<Row> {
    v.map_values(|r: Record| r@)
}

/// The rows that the members of an archive give, in archive order. A member
/// that is skipped gives none.
pub open spec fn archive_rows(members: Seq<MemberLines>, corpus: Seq<char>) -> Seq<Row>
    decreases members.len(),
{
    if members.len() == 0 {
        Seq::<Row>::empty()
    } else {
        let before = archive_rows(members.drop_last(), corpus);
        let m = members.last();
        if m.member.skipped() {
            before
        } else {
            before + rows_of(texts(m.lines@), corpus)
        }
    }
}

/// What the members of an archive send to quarantine, in archive order: for
/// each member that is read, its marker and then its failed lines. A member
/// that is skipped sends nothing.
pub open spec fn archive_quarantine(members: Seq<MemberLines>, corpus: Seq<char>) -> Seq<
    Seq<char>,
>
    decreases members.len(),
{
    if members.len() == 0 {
        Seq::<Seq<char>>::empty()
    } else {
        let before = archive_quarantine(members.drop_last(), corpus);
        let m = members.last();
        if m.member.skipped() {
            before
        } else {
            before + seq![marker_of(m.member.name@)] + quarantine_of(texts(m.lines@), corpus)
        }
    }
}

/// Every line lands in exactly one of the two sinks: the rows and the
/// quarantined lines together are as many as the lines.
pub proof fn lemma_every_line_lands_once(lines: Seq<Seq<char>>, corpus: Seq<char>)
    ensures
        rows_of(lines, corpus).len() + quarantine_of(lines, corpus).len() == lines.len(),
    decreases lines.len(),
{
    if lines.len() > 0 {
        lemma_every_line_lands_once(lines.drop_last(), corpus);
    }
}

/// A member that is skipped adds nothing to either sink.
pub proof fn lemma_skipped_member_is_silent(
    members: Seq<MemberLines>,
    skipped: MemberLines,
    corpus: Seq<char>,
)
    requires
        skipped.member.skipped(),
    ensures
        archive_rows(members.push(skipped), corpus) == archive_rows(members, corpus),
        archive_quarantine(members.push(skipped), corpus) == archive_quarantine(members, corpus),
{
    assert(members.push(skipped).drop_last() =~= members);
}

/// The input kind that `name` stands for.
pub fn input_kind(name: &str) -> (kind: Option<InputKind>)
    ensures
        kind == input_kind_of(name@),
{
    if same_text(name, "tar.gz") {
        Some(InputKind::TarGz)
    } else if same_text(name, "plain") {
        Some(InputKind::Plain)
    } else {
        None
    }
}

/// Where the input at `path` is read from: `-` stands for standard input.
pub fn source_of(path: &str) -> (source: Source)
    ensures
        source == if path@ == "-"@ {
            Source::Stdin
        } else {
            Source::File
        },
{
    if same_text(path, "-") {
        Source::Stdin
    } else {
        Source::File
    }
}

/// Turns raw lines into rows and quarantined lines.
pub struct Indexer {
    st: SuffixIndex,
    patterns: Patterns,
    input_kind: InputKind,
}

impl Indexer {
    /// The suffix corpus that domains are split against.
    pub closed spec fn corpus(&self) -> Seq<char> {
        self.st.corpus()
    }

    /// The kind of input that this indexer was set up for.
    pub closed spec fn kind(&self) -> InputKind {
        self.input_kind
    }

    /// Sets up an indexer for input of the type named, over the suffixes that
    /// `st` holds.
    pub fn new(input_type: &str, st: SuffixIndex) -> (made: Result<
        Indexer,
        SetupError,
    >)
        ensures
            made is Ok <==> input_kind_of(input_type@) is Some && compiles(
                CREDENTIALS_FIRST_PATTERN@,
            ) && compiles(DOMAIN_FIRST_PATTERN@),
            made matches Err(SetupError::UnsupportedInput) <==> input_kind_of(input_type@) is None,
            made matches Err(SetupError::PatternRejected) <==> input_kind_of(input_type@) is Some
                && !(compiles(CREDENTIALS_FIRST_PATTERN@) && compiles(DOMAIN_FIRST_PATTERN@)),
            made matches Ok(ix) ==> ix.corpus() == st.corpus() && Some(ix.kind()) == input_kind_of(
                input_type@,
            ),
    {
        let input_kind = match input_kind(input_type) {
            Some(k) => k,
            None => {
                return Err(SetupError::UnsupportedInput);
            },
        };
        match Patterns::new() {
            Some(patterns) => Ok(Indexer { st, patterns, input_kind }),
            None => Err(SetupError::PatternRejected),
        }
    }

    /// The kind of input that this indexer was set up for.
    pub fn input_kind(&self) -> (kind: InputKind)
        ensures
            kind == self.kind(),
    {
        self.input_kind
    }

    /// Decides where one line ends up.
    pub fn read_entry(&self, line: &str) -> (outcome: Outcome)
        ensures
            match outcome {
                Outcome::Record(r) => landing_of(line@, self.corpus()) == Landing::Row(r@),
                Outcome::Quarantined(q) => landing_of(line@, self.corpus()) == Landing::Quarantine(
                    q@,
                ),
            },
    {
        let kept = trim(line);
        match parse_entry(kept.as_str(), &self.patterns, &self.st) {
            Ok((username, password, subdomain, domain)) => Outcome::Record(
                Record { domain, subdomain, username, password },
            ),
            Err(_) => {
                let mut q = String::from_str(line);
                q.append("\n");
                proof {
                    reveal_strlit("\n");
                    assert("\n"@ =~= seq!['\n']);
                }
                Outcome::Quarantined(q)
            },
        }
    }

    /// Reads `lines` in order and sorts them into the two sinks.
    pub fn entry_reader(&self, lines: &Vec<String>) -> (out: Output)
        ensures
            rows(out.records@) == rows_of(texts(lines@), self.corpus()),
            texts(out.quarantine@) == quarantine_of(texts(lines@), self.corpus()),
            out.records@.len() + out.quarantine@.len() == lines@.len(),
    {
        let mut records: Vec<Record> = Vec::new();
        let mut quarantine: Vec<String> = Vec::new();
        let mut i: usize = 0;
        let ghost all = texts(lines@);
        proof {
            assert(rows(records@) =~= Seq::<Row>::empty());
            assert(texts(quarantine@) =~= Seq::<Seq<char>>::empty());
        }
        while i < lines.len()
            invariant
                i <= lines.len(),
                all == texts(lines@),
                rows(records@) == rows_of(all.subrange(0, i as int), self.corpus()),
                texts(quarantine@) == quarantine_of(all.subrange(0, i as int), self.corpus()),
            decreases lines.len() - i,
        {
            proof {
                assert(all.subrange(0, i + 1).drop_last() =~= all.subrange(0, i as int));
                assert(all.subrange(0, i + 1).last() == lines@[i as int]@);
            }
            let ghost old_records = records@;
            let ghost old_quarantine = quarantine@;
            match self.read_entry(lines[i].as_str()) {
                Outcome::Record(r) => {
                    records.push(r);
                    proof {
                        assert(rows(records@) =~= rows(old_records).push(r@));
                    }
                },
                Outcome::Quarantined(q) => {
                    quarantine.push(q);
                    proof {
                        assert(texts(quarantine@) =~= texts(old_quarantine).push(q@));
                    }
                },
            }
            i += 1;
        }
        proof {
            assert(all.subrange(0, lines@.len() as int) =~= all);
            lemma_every_line_lands_once(all, self.corpus());
        }
        Output { records, quarantine }
    }

    /// Reads the members of an archive in order. A member that is skipped
    /// gives nothing; any other is announced by its marker in the quarantine
    /// sink and then read line by line.
    pub fn process_archive(&self, members: &Vec<MemberLines>) -> (out: Output)
        ensures
            rows(out.records@) == archive_rows(members@, self.corpus()),
            texts(out.quarantine@) == archive_quarantine(members@, self.corpus()),
    {
        let mut records: Vec<Record> = Vec::new();
        let mut quarantine: Vec<String> = Vec::new();
        let mut i: usize = 0;
        proof {
            assert(rows(records@) =~= Seq::<Row>::empty());
            assert(texts(quarantine@) =~= Seq::<Seq<char>>::empty());
        }
        while i < members.len()
            invariant
                i <= members.len(),
                rows(records@) == archive_rows(members@.subrange(0, i as int), self.corpus()),
                texts(quarantine@) == archive_quarantine(
                    members@.subrange(0, i as int),
                    self.corpus(),
                ),
            decreases members.len() - i,
        {
            proof {
                assert(members@.subrange(0, i + 1).drop_last() =~= members@.subrange(0, i as int));
                assert(members@.subrange(0, i + 1).last() == members@[i as int]);
            }
            let m = &members[i];
            match m.member.action() {
                MemberAction::Skip => {},
                MemberAction::Read { marker } => {
                    let ghost old_records = records@;
                    let ghost old_quarantine = quarantine@;
                    let mut part = self.entry_reader(&m.lines);
                    let ghost part_records = part.records@;
                    let ghost part_quarantine = part.quarantine@;
                    quarantine.push(marker);
                    quarantine.append(&mut part.quarantine);
                    records.append(&mut part.records);
                    proof {
                        assert(rows(records@) =~= rows(old_records) + rows(part_records));
                        assert(texts(quarantine@) =~= texts(old_quarantine) + seq![marker@] + texts(
                            part_quarantine,
                        ));
                    }
                },
            }
            i += 1;
        }
        proof {
            assert(members@.subrange(0, members@.len() as int) =~= members@);
        }
        Output { records, quarantine }
    }
}

} // verus!
