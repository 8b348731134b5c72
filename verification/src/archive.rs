use crate::text::same_text;
use vstd::prelude::*;
use vstd::string::StringExecFns;

verus! {

/// The families of content that the `infer` crate tells apart.
#[derive(Clone, Copy, Debug, PartialEq, Eq, Structural)]
pub enum ContentKind {
    App,
    Archive,
    Audio,
    Book,
    Doc,
    Font,
    Image,
    Text,
    Video,
    Custom,
}

/// The family of the first signature known to the `infer` crate that the
/// leading bytes `head` match, or `None` where they match none.
pub uninterp spec fn sniffed(head: Seq<u8>) -> Option<ContentKind>;

/// `infer::get` looks for the first known signature that the bytes match;
/// `Type::matcher_type` gives the family of that signature.
#[verifier::external_body]
pub(crate) fn sniff(head: &[u8]) -> (kind: Option<ContentKind>)
    ensures
        kind == sniffed(head@),
{
    infer::get(head).map(|found| match found.matcher_type() {
        infer::MatcherType::App => ContentKind::App,
        infer::MatcherType::Archive => ContentKind::Archive,
        infer::MatcherType::Audio => ContentKind::Audio,
        infer::MatcherType::Book => ContentKind::Book,
        infer::MatcherType::Doc => ContentKind::Doc,
        infer::MatcherType::Font => ContentKind::Font,
        infer::MatcherType::Image => ContentKind::Image,
        infer::MatcherType::Text => ContentKind::Text,
        infer::MatcherType::Video => ContentKind::Video,
        infer::MatcherType::Custom => ContentKind::Custom,
    })
}

/// The extension of members that hold earlier output, not raw input.
pub const OUTPUT_EXTENSION: &'static str = "csv";

/// What is known of an archive member before its lines are read.
pub struct Member {
    /// The last component of the member's path; empty where it has none.
    pub name: String,
    /// The extension of that component, without the dot.
    pub extension: Option<String>,
    /// The leading bytes of the member's content.
    pub head: Vec<u8>,
}

/// What to do with an archive member.
#[derive(Debug)]
pub enum MemberAction {
    /// Leave the member out: nothing of it reaches either sink.
    Skip,
    /// Write `marker` to the quarantine sink, then read the member's lines.
    Read { marker: String },
}

/// Whether content of this kind is known not to be plain text.
pub open spec fn is_binary(kind: Option<ContentKind>) -> bool {
    kind == Some(ContentKind::Doc) || kind == Some(ContentKind::Image) || kind == Some(
        ContentKind::Text,
    ) || kind == Some(ContentKind::Archive)
}

/// Whether a member is left out: its content is binary, or its extension is
/// that of earlier output.
pub open spec fn is_skipped(kind: Option<ContentKind>, extension: Option<Seq<char>>) -> bool {
    is_binary(kind) || extension == Some(OUTPUT_EXTENSION@)
}

/// The line that announces a member in the quarantine sink.
pub open spec fn marker_of(name: Seq<char>) -> Seq<char> {
    "//"@ + name + "\n"@
}

/// Decides on a member whose content was found to be of `kind`.
pub fn plan_member(kind: Option<ContentKind>, name: &str, extension: Option<&str>) -> (action:
    MemberAction)
    ensures
        match action {
            MemberAction::Skip => is_skipped(
                kind,
                match extension {
                    Some(e) => Some(e@),
                    None => None,
                },
            ),
            MemberAction::Read { marker } => marker@ == marker_of(name@) && !is_skipped(
                kind,
                match extension {
                    Some(e) => Some(e@),
                    None => None,
                },
            ),
        },
{
    match kind {
        Some(ContentKind::Doc) | Some(ContentKind::Image) | Some(ContentKind::Text) | Some(
            ContentKind::Archive,
        ) => {
            return MemberAction::Skip;
        },
        _ => {},
    }
    match extension {
        Some(e) => {
            if same_text(e, OUTPUT_EXTENSION) {
                return MemberAction::Skip;
            }
        },
        None => {},
    }
    let mut marker = String::from_str("//");
    marker.append(name);
    marker.append("\n");
    MemberAction::Read { marker }
}

impl Member {
    /// The extension, by its characters.
    pub open spec fn extension_view(&self) -> Option<Seq<char>> {
        match self.extension {
            Some(e) => Some(e@),
            None => None,
        }
    }

    /// Whether this member is left out.
    pub open spec fn skipped(&self) -> bool {
        is_skipped(sniffed(self.head@), self.extension_view())
    }

    /// Sniffs the leading bytes and decides on the member.
    pub fn action(&self) -> (action: MemberAction)
        ensures
            match action {
                MemberAction::Skip => self.skipped(),
                MemberAction::Read { marker } => marker@ == marker_of(self.name@)
                    && !self.skipped(),
            },
    {
        let kind = sniff(self.head.as_slice());
        match &self.extension {
            Some(e) => plan_member(kind, self.name.as_str(), Some(e.as_str())),
            None => plan_member(kind, self.name.as_str(), None),
        }
    }
}

} // verus!
