//! The messages exchanged with the caller, and the line of JSON that carries
//! each reply.

use vstd::prelude::*;
use vstd::utf8::encode_utf8;
use crate::descriptor::{descriptors_to_kind, dotted, join_dotted, kind_of, names_of, push_names, Descriptor};
use crate::json::{
    json_bool, json_number, json_optional_string, json_quote, json_quote_optional, json_string,
    push_json_bool, push_json_number,
};
use crate::scope::Scope;

verus! {

/// The kind of an entry in a tag tree.
#[derive(Debug)]
pub enum TagKind {
    Function,
    Class,
}

/// An entry in a tag tree: a symbol with the entry that encloses it.
#[derive(Debug)]
pub struct TagEntry {
    pub descriptors: Vec<Descriptor>,
    pub kind: TagKind,
    pub parent: Option<Box<TagEntry>>,
    pub line: usize,
}

/// A request, told apart on the wire by its `command` field.
#[derive(Debug)]
pub enum Request {
    /// `command` is `generate-tags`: tags are wanted for `filename`, whose
    /// content is `size` bytes long.
    GenerateTags { filename: String, size: usize },
}

/// One tag: a symbol with its file, line, kind and enclosing scope.
#[derive(Debug)]
pub struct Tag<'a> {
    name: String,
    path: &'a str,
    language: &'a str,
    /// Starts at 1
    line: usize,
    kind: &'a str,
    scope: Option<&'a str>,
}

/// A reply, told apart on the wire by its `_type` field.
#[derive(Debug)]
pub enum Reply<'a> {
    Program { name: String, version: String },
    Completed { command: String },
    Error { message: String, fatal: bool },
    Tag(Tag<'a>),
}

/// The mathematical value of a [`Tag`].
pub struct TagView {
    pub name: Seq<char>,
    pub path: Seq<char>,
    pub language: Seq<char>,
    pub line: nat,
    pub kind: Seq<char>,
    pub scope: Option<Seq<char>>,
}

/// The mathematical value of a [`Reply`].
pub enum ReplyView {
    Program { name: Seq<char>, version: Seq<char> },
    Completed { command: Seq<char> },
    Error { message: Seq<char>, fatal: bool },
    Tag(TagView),
}

/// The text of an optional string slice.
pub open spec fn optional_text(text: Option<&str>) -> Option<Seq<char>> {
    match text {
        Some(t) => Some(t@),
        None => None,
    }
}

impl<'a> View for Tag<'a> {
    type V = TagView;

    closed spec fn view(&self) -> TagView {
        TagView {
            name: self.name@,
            path: self.path@,
            language: self.language@,
            line: self.line as nat,
            kind: self.kind@,
            scope: optional_text(self.scope),
        }
    }
}

impl<'a> View for Reply<'a> {
    type V = ReplyView;

    open spec fn view(&self) -> ReplyView {
        match *self {
            Reply::Program { name, version } => ReplyView::Program {
                name: name@,
                version: version@,
            },
            Reply::Completed { command } => ReplyView::Completed { command: command@ },
            Reply::Error { message, fatal } => ReplyView::Error { message: message@, fatal },
            Reply::Tag(tag) => ReplyView::Tag(tag@),
        }
    }
}

/// The object of a `program` reply, made of the JSON texts of its fields.
pub open spec fn program_object(name: Seq<char>, version: Seq<char>) -> Seq<char> {
    "{\"_type\":\"program\",\"name\":"@ + name + ",\"version\":"@ + version + "}"@
}

/// The object of a `completed` reply, made of the JSON text of its field.
pub open spec fn completed_object(command: Seq<char>) -> Seq<char> {
    "{\"_type\":\"completed\",\"command\":"@ + command + "}"@
}

/// The object of an `error` reply, made of the JSON text of its message and
/// of its flag.
pub open spec fn error_object(message: Seq<char>, fatal: bool) -> Seq<char> {
    "{\"_type\":\"error\",\"message\":"@ + message + ",\"fatal\":"@ + json_bool(fatal) + "}"@
}

/// The object of a `tag` reply, made of the JSON texts of its fields and of
/// its line.
pub open spec fn tag_object(
    name: Seq<char>,
    path: Seq<char>,
    language: Seq<char>,
    line: nat,
    kind: Seq<char>,
    scope: Seq<char>,
) -> Seq<char> {
    "{\"_type\":\"tag\",\"name\":"@ + name + ",\"path\":"@ + path + ",\"language\":"@ + language
        + ",\"line\":"@ + json_number(line) + ",\"kind\":"@ + kind + ",\"scope\":"@ + scope + "}"@
}

/// The JSON object of a tag, with `scope` written as `null` where the tag
/// has none.
pub open spec fn tag_json(tag: TagView) -> Seq<char> {
    tag_object(
        json_string(tag.name),
        json_string(tag.path),
        json_string(tag.language),
        tag.line,
        json_string(tag.kind),
        json_optional_string(tag.scope),
    )
}

/// The JSON object of a reply: `_type` first, then the fields in the order
/// of their declaration, with no space anywhere outside the strings.
pub open spec fn reply_json(reply: ReplyView) -> Seq<char> {
    match reply {
        ReplyView::Program { name, version } => program_object(
            json_string(name),
            json_string(version),
        ),
        ReplyView::Completed { command } => completed_object(json_string(command)),
        ReplyView::Error { message, fatal } => error_object(json_string(message), fatal),
        ReplyView::Tag(tag) => tag_json(tag),
    }
}

/// The bytes of one line of the stream: the text in UTF-8, then a line feed.
pub open spec fn line_bytes(text: Seq<char>) -> Seq<u8> {
    encode_utf8(text) + encode_utf8("\n"@)
}

/// The bytes that carry one reply.
pub open spec fn reply_bytes(reply: ReplyView) -> Seq<u8> {
    line_bytes(reply_json(reply))
}

/// Frames a `program` reply from the JSON texts of its fields.
pub fn frame_program(name: &str, version: &str) -> (text: String)
    ensures
        text@ == program_object(name@, version@),
{
    let mut text = String::from_str("{\"_type\":\"program\",\"name\":");
    text.append(name);
    text.append(",\"version\":");
    text.append(version);
    text.append("}");
    text
}

/// Frames a `completed` reply from the JSON text of its field.
pub fn frame_completed(command: &str) -> (text: String)
    ensures
        text@ == completed_object(command@),
{
    let mut text = String::from_str("{\"_type\":\"completed\",\"command\":");
    text.append(command);
    text.append("}");
    text
}

/// Frames an `error` reply from the JSON text of its message and its flag.
pub fn frame_error(message: &str, fatal: bool) -> (text: String)
    ensures
        text@ == error_object(message@, fatal),
{
    let mut text = String::from_str("{\"_type\":\"error\",\"message\":");
    text.append(message);
    text.append(",\"fatal\":");
    push_json_bool(&mut text, fatal);
    text.append("}");
    text
}

/// Frames a `tag` reply from the JSON texts of its fields and its line.
pub fn frame_tag(
    name: &str,
    path: &str,
    language: &str,
    line: usize,
    kind: &str,
    scope: &str,
) -> (text: String)
    ensures
        text@ == tag_object(name@, path@, language@, line as nat, kind@, scope@),
{
    let mut text = String::from_str("{\"_type\":\"tag\",\"name\":");
    text.append(name);
    text.append(",\"path\":");
    text.append(path);
    text.append(",\"language\":");
    text.append(language);
    text.append(",\"line\":");
    push_json_number(&mut text, line);
    text.append(",\"kind\":");
    text.append(kind);
    text.append(",\"scope\":");
    text.append(scope);
    text.append("}");
    text
}

/// Appends `bytes` to `writer`.
fn write_all(writer: &mut Vec<u8>, bytes: &[u8])
    ensures
        final(writer)@ == old(writer)@ + bytes@,
{
    let mut i: usize = 0;
    while i < bytes.len()
        invariant
            i <= bytes@.len(),
            writer@ == old(writer)@ + bytes@.take(i as int),
        decreases bytes@.len() - i,
    {
        writer.push(bytes[i]);
        proof {
            assert(bytes@.take(i + 1) == bytes@.take(i as int).push(bytes@[i as int]));
        }
        i += 1;
    }
    proof {
        assert(bytes@.take(bytes@.len() as int) == bytes@);
    }
}

impl<'a> Tag<'a> {
    /// A tag of the given fields.
    pub(crate) fn new(
        name: String,
        path: &'a str,
        language: &'a str,
        line: usize,
        kind: &'a str,
        scope: Option<&'a str>,
    ) -> (tag: Tag<'a>)
        ensures
            tag@ == (TagView {
                name: name@,
                path: path@,
                language: language@,
                line: line as nat,
                kind: kind@,
                scope: optional_text(scope),
            }),
    {
        Tag { name, path, language, line, kind, scope }
    }

    fn to_json(&self) -> (text: String)
        ensures
            text@ == tag_json(self@),
    {
        let name = json_quote(self.name.as_str());
        let path = json_quote(self.path);
        let language = json_quote(self.language);
        let kind = json_quote(self.kind);
        let scope = json_quote_optional(self.scope);
        frame_tag(
            name.as_str(),
            path.as_str(),
            language.as_str(),
            self.line,
            kind.as_str(),
            scope.as_str(),
        )
    }
}

impl<'a> Reply<'a> {
    fn to_json(&self) -> (text: String)
        ensures
            text@ == reply_json(self@),
    {
        match self {
            Reply::Program { name, version } => {
                let name = json_quote(name.as_str());
                let version = json_quote(version.as_str());
                frame_program(name.as_str(), version.as_str())
            },
            Reply::Completed { command } => {
                let command = json_quote(command.as_str());
                frame_completed(command.as_str())
            },
            Reply::Error { message, fatal } => {
                let message = json_quote(message.as_str());
                frame_error(message.as_str(), *fatal)
            },
            Reply::Tag(tag) => tag.to_json(),
        }
    }

    /// Writes the reply as one line: its JSON object, then a line feed.
    pub fn write(self, writer: &mut Vec<u8>)
        ensures
            final(writer)@ == old(writer)@ + reply_bytes(self@),
    {
        let text = self.to_json();
        write_all(writer, text.as_str().as_bytes());
        write_all(writer, "\n".as_bytes());
    }

    /// Writes the tag of a scope: named by all of the scope's descriptors,
    /// on the line after the scope's first range value, with the kind of its
    /// descriptors and `tag_scope` as the enclosing scope.
    pub fn write_tag(
        writer: &mut Vec<u8>,
        scope: &Scope,
        path: &'a str,
        language: &'a str,
        tag_scope: Option<&'a str>,
    )
        requires
            scope@.start_line >= 0,
        ensures
            final(writer)@ == old(writer)@ + reply_bytes(
                ReplyView::Tag(
                    TagView {
                        name: dotted(names_of(scope@.descriptors)),
                        path: path@,
                        language: language@,
                        line: (scope@.start_line + 1) as nat,
                        kind: kind_of(scope@.descriptors),
                        scope: optional_text(tag_scope),
                    },
                ),
            ),
    {
        let descriptors = &scope.descriptors;
        let mut names: Vec<String> = Vec::new();
        push_names(&mut names, descriptors.as_slice(), descriptors.len());
        let name = join_dotted(&names);
        proof {
            let ds = descriptors.deep_view();
            assert(ds.take(ds.len() as int) == ds);
            assert(names.deep_view() == names_of(ds));
        }
        let line: usize = scope.range[0] as usize + 1;
        let tag = Reply::Tag(
            Tag::new(name, path, language, line, descriptors_to_kind(descriptors.as_slice()), tag_scope),
        );
        tag.write(writer);
    }
}

} // verus!
