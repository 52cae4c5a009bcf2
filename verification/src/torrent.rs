//! The file tree of a shared directory: how it is read from a manifest, listed,
//! checked against what is on disk, and written down as a manifest again.
//!
//! Nothing here touches the disk. The caller reads the manifest into a `Json`
//! value and the directory into `DirEntry` values, and this module works on those.

use crate::text::same_text;
use vstd::prelude::*;
use vstd::string::{StrSliceExecFns, StringExecFns};

verus! {

/// What a node of a file tree stands for.
#[derive(Clone, Copy, Debug, PartialEq, Eq, Structural)]
pub enum FileType {
    /// Nothing: the root of a tree, or an entry of the manifest that is
    /// neither a file nor a directory.
    NONE,
    FILE,
    DIRECTORY,
}

impl Default for FileType {
    fn default() -> (kind: Self)
        ensures
            kind == FileType::NONE,
    {
        FileType::NONE
    }
}

/// One node of a file tree.
#[derive(Debug)]
pub struct FileNode {
    pub filename: String,
    pub file_type: FileType,
    /// Size in bytes; 0 for what is not a file.
    pub size: u64,
    /// Hash of the contents, in hexadecimal; empty for what is not a file.
    pub hash: String,
    pub children: Vec<FileNode>,
}

/// A `FileNode` as a mathematical value.
pub struct FileNodeView {
    pub filename: Seq<char>,
    pub file_type: FileType,
    pub size: u64,
    pub hash: Seq<char>,
    pub children: Seq<FileNodeView>,
}

impl View for FileNode {
    type V = FileNodeView;

    open spec fn view(&self) -> FileNodeView
        decreases self, 0nat,
    {
        FileNodeView {
            filename: self.filename@,
            file_type: self.file_type,
            size: self.size,
            hash: self.hash@,
            children: spec_nodes_view(self.children),
        }
    }
}

/// The views of the nodes of `nodes`, in order.
pub open spec fn spec_nodes_view(nodes: Vec<FileNode>) -> Seq<FileNodeView>
    decreases nodes, 1nat,
{
    Seq::new(
        nodes.len() as nat,
        |at: int|
            if 0 <= at < nodes.len() {
                nodes[at]@
            } else {
                spec_empty_node()
            },
    )
}

/// The node that stands for nothing: no name, no size, no hash, no children.
pub open spec fn spec_empty_node() -> FileNodeView {
    FileNodeView {
        filename: Seq::empty(),
        file_type: FileType::NONE,
        size: 0,
        hash: Seq::empty(),
        children: Seq::empty(),
    }
}

impl Default for FileNode {
    fn default() -> (node: Self)
        ensures
            node@ == spec_empty_node(),
    {
        let node = FileNode {
            filename: String::new(),
            file_type: FileType::NONE,
            size: 0,
            hash: String::new(),
            children: Vec::new(),
        };
        proof {
            lemma_node_view(node);
            assert(node@.children =~= Seq::<FileNodeView>::empty());
        }
        node
    }
}

/// A JSON value, as far as a manifest is read: texts, whole numbers that fit
/// 64 bits, and objects. Everything else (null, booleans, arrays, other
/// numbers) is `Other`.
#[derive(Debug)]
pub enum Json {
    Text(String),
    Number(u64),
    /// The members of an object, in the order in which the object lists them.
    Object(Vec<(String, Json)>),
    Other,
}

/// A `Json` as a mathematical value.
pub enum JsonView {
    Text(Seq<char>),
    Number(u64),
    Object(Seq<(Seq<char>, JsonView)>),
    Other,
}

impl View for Json {
    type V = JsonView;

    open spec fn view(&self) -> JsonView
        decreases self, 0nat,
    {
        match self {
            Json::Text(text) => JsonView::Text(text@),
            Json::Number(number) => JsonView::Number(*number),
            Json::Object(members) => JsonView::Object(spec_members_view(*members)),
            Json::Other => JsonView::Other,
        }
    }
}

/// The views of the members of an object, name by name and value by value.
pub open spec fn spec_members_view(members: Vec<(String, Json)>) -> Seq<(Seq<char>, JsonView)>
    decreases members, 1nat,
{
    Seq::new(
        members.len() as nat,
        |at: int|
            if 0 <= at < members.len() {
                (members[at].0@, members[at].1@)
            } else {
                (Seq::empty(), JsonView::Other)
            },
    )
}

/// What a directory holds, as the caller found it on disk.
#[derive(Debug)]
pub enum DirEntry {
    /// A file, with the hash of its contents in hexadecimal.
    File { name: String, size: u64, hash: String },
    /// A directory with its own entries, or `None` where it could not be listed.
    Directory { name: String, entries: Option<Vec<DirEntry>> },
}

/// A `DirEntry` as a mathematical value.
pub enum DirEntryView {
    File { name: Seq<char>, size: u64, hash: Seq<char> },
    Directory { name: Seq<char>, entries: Option<Seq<DirEntryView>> },
}

impl View for DirEntry {
    type V = DirEntryView;

    open spec fn view(&self) -> DirEntryView
        decreases self, 0nat,
    {
        match self {
            DirEntry::File { name, size, hash } => DirEntryView::File {
                name: name@,
                size: *size,
                hash: hash@,
            },
            DirEntry::Directory { name, entries: Some(list) } => DirEntryView::Directory {
                name: name@,
                entries: Some(spec_entries_view(*list)),
            },
            DirEntry::Directory { name, entries: None } => DirEntryView::Directory {
                name: name@,
                entries: None,
            },
        }
    }
}

/// The views of the entries of a directory, in order.
pub open spec fn spec_entries_view(entries: Vec<DirEntry>) -> Seq<DirEntryView>
    decreases entries, 1nat,
{
    Seq::new(
        entries.len() as nat,
        |at: int|
            if 0 <= at < entries.len() {
                entries[at]@
            } else {
                DirEntryView::Directory { name: Seq::empty(), entries: None }
            },
    )
}

/// What a listing holds, as mathematical values: the entries of a directory
/// that could be listed, and nothing for one that could not.
pub open spec fn spec_listing_view(listing: Option<Vec<DirEntry>>) -> Option<Seq<DirEntryView>> {
    match listing {
        Some(entries) => Some(spec_entries_view(entries)),
        None => None,
    }
}

/// Why a manifest could not be read or written.
#[derive(Clone, Copy, Debug, PartialEq, Eq, Structural)]
pub enum TorrentError {
    /// The manifest is not a JSON object.
    NotAnObject,
    /// A file of the manifest has no size that is a whole number.
    MissingSize,
    /// A file of the manifest has no hash that is a text.
    MissingHash,
    /// A directory could not be listed.
    Unreadable,
}

/// The position of the first member named `key` at or after position `from`.
pub open spec fn spec_member_from(
    members: Seq<(Seq<char>, JsonView)>,
    key: Seq<char>,
    from: int,
) -> Option<int>
    decreases members.len() - from,
{
    if from < 0 || from >= members.len() {
        None
    } else if members[from].0 == key {
        Some(from)
    } else {
        spec_member_from(members, key, from + 1)
    }
}

/// Whether `value` is an object that has a member named `key`.
pub open spec fn spec_has_member(value: JsonView, key: Seq<char>) -> bool {
    value matches JsonView::Object(members) && spec_member_from(members, key, 0) is Some
}

/// The member `key` of `value`: the first member of that name where `value`
/// is an object that has one, and `Other` in every other case.
pub open spec fn spec_field(value: JsonView, key: Seq<char>) -> JsonView {
    match value {
        JsonView::Object(members) => match spec_member_from(members, key, 0) {
            Some(at) => members[at].1,
            None => JsonView::Other,
        },
        _ => JsonView::Other,
    }
}

/// The tree that the manifest entry `name` with value `value` describes.
///
/// An entry of type "file" is a file with its size and hash; one of type
/// "directory" is a directory whose children are its members but "type", in
/// their order; any other entry is the empty node. The first file without a
/// proper size or hash makes the whole entry an error.
pub open spec fn spec_parse_tree(name: Seq<char>, value: JsonView) -> Result<
    FileNodeView,
    TorrentError,
>
    decreases value, 0nat,
{
    match spec_field(value, "type"@) {
        JsonView::Text(kind) => if kind == "file"@ {
            match spec_field(value, "size"@) {
                JsonView::Number(size) => match spec_field(value, "hash"@) {
                    JsonView::Text(hash) => Ok(
                        FileNodeView {
                            filename: name,
                            file_type: FileType::FILE,
                            size,
                            hash,
                            children: Seq::empty(),
                        },
                    ),
                    _ => Err(TorrentError::MissingHash),
                },
                _ => Err(TorrentError::MissingSize),
            }
        } else if kind == "directory"@ {
            match value {
                JsonView::Object(members) => match spec_parse_members(members, members.len()) {
                    Ok(children) => Ok(
                        FileNodeView {
                            filename: name,
                            file_type: FileType::DIRECTORY,
                            size: 0,
                            hash: Seq::empty(),
                            children,
                        },
                    ),
                    Err(error) => Err(error),
                },
                _ => Ok(spec_empty_node()),
            }
        } else {
            Ok(spec_empty_node())
        },
        _ => Ok(spec_empty_node()),
    }
}

/// The children that the first `count` members of a directory entry describe.
pub open spec fn spec_parse_members(members: Seq<(Seq<char>, JsonView)>, count: nat) -> Result<
    Seq<FileNodeView>,
    TorrentError,
>
    decreases members, count,
{
    if count == 0 || count > members.len() {
        Ok(Seq::empty())
    } else {
        match spec_parse_members(members, (count - 1) as nat) {
            Ok(before) => {
                let member = members[count - 1];
                if member.0 == "type"@ {
                    Ok(before)
                } else {
                    match spec_parse_tree(member.0, member.1) {
                        Ok(child) => Ok(before.push(child)),
                        Err(error) => Err(error),
                    }
                }
            },
            Err(error) => Err(error),
        }
    }
}

/// The nodes under the root that the first `count` members of a manifest
/// describe: every member that is a file or a directory, in order. A member
/// that is neither stands for its own children.
pub open spec fn spec_parse_roots(members: Seq<(Seq<char>, JsonView)>, count: nat) -> Result<
    Seq<FileNodeView>,
    TorrentError,
>
    decreases count,
{
    if count == 0 || count > members.len() {
        Ok(Seq::empty())
    } else {
        match spec_parse_roots(members, (count - 1) as nat) {
            Ok(before) => {
                let member = members[count - 1];
                match spec_parse_tree(member.0, member.1) {
                    Ok(node) => if node.file_type == FileType::NONE {
                        Ok(before + node.children)
                    } else {
                        Ok(before.push(node))
                    },
                    Err(error) => Err(error),
                }
            },
            Err(error) => Err(error),
        }
    }
}

/// The tree of the manifest `filename` whose contents are `json`: a root
/// named after the manifest, over the nodes that the members describe. A
/// manifest that is not an object is an error.
pub open spec fn spec_parse_torrent_file(filename: Seq<char>, json: JsonView) -> Result<
    FileNodeView,
    TorrentError,
> {
    match json {
        JsonView::Object(members) => match spec_parse_roots(members, members.len()) {
            Ok(children) => Ok(
                FileNodeView {
                    filename,
                    file_type: FileType::NONE,
                    size: 0,
                    hash: Seq::empty(),
                    children,
                },
            ),
            Err(error) => Err(error),
        },
        _ => Err(TorrentError::NotAnObject),
    }
}

/// Whether `result` is `expected`, the tree taken by its view.
pub open spec fn spec_same_tree(
    result: Result<FileNode, TorrentError>,
    expected: Result<FileNodeView, TorrentError>,
) -> bool {
    match result {
        Ok(node) => expected == Ok::<FileNodeView, TorrentError>(node@),
        Err(error) => expected == Err::<FileNodeView, TorrentError>(error),
    }
}

/// The member `key` of `value`, if `value` is an object that has one.
pub fn field<'a>(value: &'a Json, key: &str) -> (found: Option<&'a Json>)
    ensures
        found is Some <==> spec_has_member(value@, key@),
        match found {
            Some(member) => member@ == spec_field(value@, key@),
            None => spec_field(value@, key@) is Other,
        },
{
    match value {
        Json::Object(members) => {
            let ghost views = value@->Object_0;
            proof {
                lemma_object_view(*value);
            }
            let mut at: usize = 0;
            while at < members.len()
                invariant
                    at <= members.len(),
                    value@ == JsonView::Object(views),
                    views.len() == members.len(),
                    forall|k: int|
                        0 <= k < members.len() ==> views[k] == (members[k].0@, members[k].1@),
                    spec_member_from(views, key@, 0) == spec_member_from(views, key@, at as int),
                decreases members.len() - at,
            {
                if same_text(members[at].0.as_str(), key) {
                    return Some(&members[at].1);
                }
                at += 1;
            }
            None
        },
        _ => None,
    }
}

/// The text that the member `key` of `value` holds, if it holds one.
pub fn field_text<'a>(value: &'a Json, key: &str) -> (text: Option<&'a String>)
    ensures
        match text {
            Some(found) => spec_field(value@, key@) == JsonView::Text(found@),
            None => !(spec_field(value@, key@) is Text),
        },
{
    match field(value, key) {
        Some(Json::Text(text)) => Some(text),
        _ => None,
    }
}

/// The number that the member `key` of `value` holds, if it holds one.
pub fn field_number(value: &Json, key: &str) -> (number: Option<u64>)
    ensures
        match number {
            Some(found) => spec_field(value@, key@) == JsonView::Number(found),
            None => !(spec_field(value@, key@) is Number),
        },
{
    match field(value, key) {
        Some(Json::Number(number)) => Some(*number),
        _ => None,
    }
}

/// Reads one entry of a manifest into the tree that it describes.
pub fn parse_tree(name: &str, value: &Json) -> (result: Result<FileNode, TorrentError>)
    ensures
        spec_same_tree(result, spec_parse_tree(name@, value@)),
    decreases value,
{
    let kind = match field_text(value, "type") {
        Some(kind) => kind,
        None => {
            return Ok(FileNode::default());
        },
    };
    if same_text(kind.as_str(), "file") {
        let size = match field_number(value, "size") {
            Some(size) => size,
            None => {
                return Err(TorrentError::MissingSize);
            },
        };
        let hash = match field_text(value, "hash") {
            Some(hash) => hash,
            None => {
                return Err(TorrentError::MissingHash);
            },
        };
        let node = FileNode {
            filename: String::from_str(name),
            file_type: FileType::FILE,
            size,
            hash: hash.clone(),
            children: Vec::new(),
        };
        proof {
            lemma_node_view(node);
            assert(node@.children =~= Seq::<FileNodeView>::empty());
        }
        Ok(node)
    } else if same_text(kind.as_str(), "directory") {
        match value {
            Json::Object(members) => {
                let ghost views = value@->Object_0;
                proof {
                    lemma_object_view(*value);
                }
                let mut children: Vec<FileNode> = Vec::new();
                let mut at: usize = 0;
                assert(spec_nodes_view(children) =~= Seq::<FileNodeView>::empty());
                while at < members.len()
                    invariant
                        at <= members.len(),
                        value == Json::Object(*members),
                        value@ == JsonView::Object(views),
                        spec_field(value@, "type"@) == JsonView::Text(kind@),
                        kind@ != "file"@,
                        kind@ == "directory"@,
                        views.len() == members.len(),
                        forall|k: int|
                            0 <= k < members.len() ==> views[k] == (members[k].0@, members[k].1@),
                        spec_parse_members(views, at as nat) == Ok::<
                            Seq<FileNodeView>,
                            TorrentError,
                        >(spec_nodes_view(children)),
                    decreases members.len() - at,
                {
                    if !same_text(members[at].0.as_str(), "type") {
                        match parse_tree(members[at].0.as_str(), &members[at].1) {
                            Ok(child) => {
                                let ghost before = spec_nodes_view(children);
                                children.push(child);
                                assert(spec_nodes_view(children)
                                    =~= before.push(child@));
                            },
                            Err(error) => {
                                proof {
                                    assert(spec_parse_members(views, (at + 1) as nat) == Err::<
                                        Seq<FileNodeView>,
                                        TorrentError,
                                    >(error));
                                    lemma_members_error(
                                        views,
                                        (at + 1) as nat,
                                        members.len() as nat,
                                    );
                                }
                                return Err(error);
                            },
                        }
                    }
                    at += 1;
                }
                let node = FileNode {
                    filename: String::from_str(name),
                    file_type: FileType::DIRECTORY,
                    size: 0,
                    hash: String::new(),
                    children,
                };
                proof {
                    lemma_node_view(node);
                    assert(node@.children == spec_nodes_view(node.children));
                }
                Ok(node)
            },
            _ => Ok(FileNode::default()),
        }
    } else {
        Ok(FileNode::default())
    }
}

/// The view of an object holds the views of its members, name by name and
/// value by value.
pub proof fn lemma_object_view(value: Json)
    requires
        value is Object,
    ensures
        value@ is Object,
        value@->Object_0.len() == value->Object_0.len(),
        forall|k: int|
            0 <= k < value->Object_0.len() ==> #[trigger] value@->Object_0[k] == (
                value->Object_0[k].0@,
                value->Object_0[k].1@,
            ),
{
    assert(value@->Object_0 == spec_members_view(value->Object_0));
}

/// The view of a node holds the views of its children, in order.
pub proof fn lemma_node_view(node: FileNode)
    ensures
        node@.filename == node.filename@,
        node@.file_type == node.file_type,
        node@.size == node.size,
        node@.hash == node.hash@,
        node@.children.len() == node.children.len(),
        forall|k: int|
            0 <= k < node.children.len() ==> #[trigger] node@.children[k] == node.children[k]@,
{
    assert(node@.children == spec_nodes_view(node.children));
}

/// An error among the first members of a directory is the error of the whole
/// directory.
pub proof fn lemma_members_error(members: Seq<(Seq<char>, JsonView)>, first: nat, count: nat)
    requires
        first <= count <= members.len(),
        spec_parse_members(members, first) is Err,
    ensures
        spec_parse_members(members, count) == spec_parse_members(members, first),
    decreases count,
{
    if first < count {
        lemma_members_error(members, first, (count - 1) as nat);
    }
}

/// An error among the first members of a manifest is the error of the whole
/// manifest.
pub proof fn lemma_roots_error(members: Seq<(Seq<char>, JsonView)>, first: nat, count: nat)
    requires
        first <= count <= members.len(),
        spec_parse_roots(members, first) is Err,
    ensures
        spec_parse_roots(members, count) == spec_parse_roots(members, first),
    decreases count,
{
    if first < count {
        lemma_roots_error(members, first, (count - 1) as nat);
    }
}

/// Reads a manifest into its file tree.
///
/// `filename` is the name of the manifest and becomes the name of the root;
/// `json` is what the manifest holds. Every member of the manifest that is a
/// file or a directory becomes a node under the root, in the manifest's order.
/// A manifest that is not an object, or that holds a file without a proper
/// size or hash, is refused.
pub fn parse_torrent_file(filename: &str, json: &Json) -> (result: Result<FileNode, TorrentError>)
    ensures
        spec_same_tree(result, spec_parse_torrent_file(filename@, json@)),
{
    match json {
        Json::Object(members) => {
            let ghost views = json@->Object_0;
            proof {
                lemma_object_view(*json);
            }
            let mut children: Vec<FileNode> = Vec::new();
            let mut at: usize = 0;
            assert(spec_nodes_view(children) =~= Seq::<FileNodeView>::empty());
            while at < members.len()
                invariant
                    at <= members.len(),
                    json@ == JsonView::Object(views),
                    views.len() == members.len(),
                    forall|k: int|
                        0 <= k < members.len() ==> views[k] == (members[k].0@, members[k].1@),
                    spec_parse_roots(views, at as nat) == Ok::<Seq<FileNodeView>, TorrentError>(
                        spec_nodes_view(children),
                    ),
                decreases members.len() - at,
            {
                match parse_tree(members[at].0.as_str(), &members[at].1) {
                    Ok(node) => {
                        let ghost before = spec_nodes_view(children);
                        proof {
                            lemma_node_view(node);
                        }
                        let ghost below = node@.children;
                        let ghost nodes_below = node.children@;
                        if node.file_type == FileType::NONE {
                            let mut grandchildren = node.children;
                            children.append(&mut grandchildren);
                            assert(children@.len() == before.len() + nodes_below.len());
                            assert(spec_nodes_view(children) =~= before
                                + below);
                        } else {
                            children.push(node);
                            assert(spec_nodes_view(children)
                                =~= before.push(node@));
                        }
                    },
                    Err(error) => {
                        proof {
                            assert(spec_parse_roots(views, (at + 1) as nat) == Err::<
                                Seq<FileNodeView>,
                                TorrentError,
                            >(error));
                            lemma_roots_error(views, (at + 1) as nat, members.len() as nat);
                        }
                        return Err(error);
                    },
                }
                at += 1;
            }
            let root = FileNode {
                filename: String::from_str(filename),
                file_type: FileType::NONE,
                size: 0,
                hash: String::new(),
                children,
            };
            proof {
                lemma_node_view(root);
                assert(root@.children == spec_nodes_view(root.children));
            }
            Ok(root)
        },
        _ => Err(TorrentError::NotAnObject),
    }
}

/// The indentation of a line at depth `level`: two spaces for each level.
pub open spec fn spec_indent(level: nat) -> Seq<char>
    decreases level,
{
    if level == 0 {
        Seq::empty()
    } else {
        spec_indent((level - 1) as nat) + seq![' ', ' ']
    }
}

/// The lines that list `tree` behind the indentation `indent`: the name of the
/// node, and below it, one step further in, the lines of its children in
/// order. A file is listed without children.
pub open spec fn spec_tree_lines(tree: FileNodeView, indent: Seq<char>) -> Seq<Seq<char>>
    decreases tree, 0nat,
{
    seq![indent + tree.filename] + if tree.file_type == FileType::FILE {
        Seq::empty()
    } else {
        spec_forest_lines(tree.children, tree.children.len(), indent + seq![' ', ' '])
    }
}

/// The lines that list the first `count` trees of `trees`, one after the other.
pub open spec fn spec_forest_lines(trees: Seq<FileNodeView>, count: nat, indent: Seq<char>) -> Seq<
    Seq<char>,
>
    decreases trees, count,
{
    if count == 0 || count > trees.len() {
        Seq::empty()
    } else {
        spec_forest_lines(trees, (count - 1) as nat, indent) + spec_tree_lines(
            trees[count - 1],
            indent,
        )
    }
}

/// The indentation of a line at depth `level`.
pub fn indentation(level: u16) -> (indent: String)
    ensures
        indent@ == spec_indent(level as nat),
{
    proof {
        reveal_strlit("  ");
    }
    let mut indent = String::new();
    let mut done: u16 = 0;
    while done < level
        invariant
            done <= level,
            indent@ == spec_indent(done as nat),
            "  "@ == seq![' ', ' '],
        decreases level - done,
    {
        indent.append("  ");
        done += 1;
    }
    indent
}

fn collect_lines(tree: &FileNode, indent: &str, lines: &mut Vec<String>)
    ensures
        final(lines).deep_view() == old(lines).deep_view() + spec_tree_lines(tree@, indent@),
    decreases tree,
{
    proof {
        reveal_strlit("  ");
        lemma_node_view(*tree);
    }
    let ghost start = lines.deep_view();
    let mut line = String::from_str(indent);
    line.append(tree.filename.as_str());
    lines.push(line);
    assert(lines.deep_view() =~= start + seq![indent@ + tree@.filename]);
    if tree.file_type != FileType::FILE {
        let mut deeper = String::from_str(indent);
        deeper.append("  ");
        let mut at: usize = 0;
        while at < tree.children.len()
            invariant
                at <= tree.children.len(),
                tree@.children.len() == tree.children.len(),
                forall|k: int|
                    0 <= k < tree.children.len() ==> #[trigger] tree@.children[k]
                        == tree.children[k]@,
                deeper@ == indent@ + seq![' ', ' '],
                lines.deep_view() == start + seq![indent@ + tree@.filename] + spec_forest_lines(
                    tree@.children,
                    at as nat,
                    deeper@,
                ),
            decreases tree.children.len() - at,
        {
            let ghost before = lines.deep_view();
            collect_lines(&tree.children[at], deeper.as_str(), lines);
            at += 1;
            assert(lines.deep_view() =~= start + seq![indent@ + tree@.filename]
                + spec_forest_lines(tree@.children, at as nat, deeper@));
        }
    }
    assert(lines.deep_view() =~= start + spec_tree_lines(tree@, indent@));
}

/// Lists a file tree, one line for each node: the root at depth `level`, every
/// child one step deeper than its parent; a line is indented by two spaces for
/// each step of depth. The children of a file are not listed.
pub fn tree_lines(tree: &FileNode, level: u16) -> (lines: Vec<String>)
    ensures
        lines.deep_view() == spec_tree_lines(tree@, spec_indent(level as nat)),
{
    let indent = indentation(level);
    let mut lines: Vec<String> = Vec::new();
    assert(lines.deep_view() =~= Seq::<Seq<char>>::empty());
    collect_lines(tree, indent.as_str(), &mut lines);
    assert(lines.deep_view() =~= spec_tree_lines(tree@, indent@));
    lines
}

/// The view of a directory entry holds the views of its entries, in order.
pub proof fn lemma_entry_view(entry: DirEntry)
    ensures
        entry@ == match entry {
            DirEntry::File { name, size, hash } => DirEntryView::File {
                name: name@,
                size,
                hash: hash@,
            },
            DirEntry::Directory { name, entries } => DirEntryView::Directory {
                name: name@,
                entries: spec_listing_view(entries),
            },
        },
{
}

/// The name of a directory entry.
pub open spec fn spec_entry_name(entry: DirEntryView) -> Seq<char> {
    match entry {
        DirEntryView::File { name, .. } => name,
        DirEntryView::Directory { name, .. } => name,
    }
}

/// The position of the first node named `name` at or after position `from`.
pub open spec fn spec_child_from(children: Seq<FileNodeView>, name: Seq<char>, from: int)
    -> Option<int>
    decreases children.len() - from,
{
    if from < 0 || from >= children.len() {
        None
    } else if children[from].filename == name {
        Some(from)
    } else {
        spec_child_from(children, name, from + 1)
    }
}

/// Whether one entry of a directory is what `tree` says it is: `tree` has a
/// child of the entry's name, and the first such child has the hash of the
/// entry where the entry is a file, and accounts for everything inside the
/// entry where it is a directory.
pub open spec fn spec_entry_matches(tree: FileNodeView, entry: DirEntryView) -> bool
    decreases entry, 0nat,
{
    match spec_child_from(tree.children, spec_entry_name(entry), 0) {
        Some(at) => match entry {
            DirEntryView::File { hash, .. } => tree.children[at].hash == hash,
            DirEntryView::Directory { entries, .. } => spec_verify_file_tree(
                tree.children[at],
                entries,
            ),
        },
        None => false,
    }
}

/// Whether the first `count` entries of a directory are what `tree` says they are.
pub open spec fn spec_entries_match(tree: FileNodeView, entries: Seq<DirEntryView>, count: nat)
    -> bool
    decreases entries, count,
{
    if count == 0 || count > entries.len() {
        true
    } else {
        spec_entries_match(tree, entries, (count - 1) as nat) && spec_entry_matches(
            tree,
            entries[count - 1],
        )
    }
}

/// Whether a directory on disk holds nothing but what `tree` accounts for:
/// the directory could be listed, and every one of its entries matches.
pub open spec fn spec_verify_file_tree(tree: FileNodeView, listing: Option<Seq<DirEntryView>>)
    -> bool
    decreases listing, 0nat,
{
    match listing {
        Some(entries) => spec_entries_match(tree, entries, entries.len()),
        None => false,
    }
}

/// The first child of `tree` that is named `name`.
pub fn find_child<'a>(tree: &'a FileNode, name: &str) -> (found: Option<&'a FileNode>)
    ensures
        match found {
            Some(child) => spec_child_from(tree@.children, name@, 0) matches Some(at)
                && tree@.children[at] == child@,
            None => spec_child_from(tree@.children, name@, 0) is None,
        },
{
    proof {
        lemma_node_view(*tree);
    }
    let mut at: usize = 0;
    while at < tree.children.len()
        invariant
            at <= tree.children.len(),
            tree@.children.len() == tree.children.len(),
            forall|k: int|
                0 <= k < tree.children.len() ==> #[trigger] tree@.children[k] == tree.children[k]@,
            spec_child_from(tree@.children, name@, 0) == spec_child_from(
                tree@.children,
                name@,
                at as int,
            ),
        decreases tree.children.len() - at,
    {
        proof {
            lemma_node_view(tree.children[at as int]);
        }
        if same_text(tree.children[at].filename.as_str(), name) {
            return Some(&tree.children[at]);
        }
        at += 1;
    }
    None
}

/// A mismatch among the first entries of a directory is a mismatch of the
/// whole directory.
pub proof fn lemma_entries_mismatch(
    tree: FileNodeView,
    entries: Seq<DirEntryView>,
    first: nat,
    count: nat,
)
    requires
        first <= count <= entries.len(),
        !spec_entries_match(tree, entries, first),
    ensures
        !spec_entries_match(tree, entries, count),
    decreases count,
{
    if first < count {
        lemma_entries_mismatch(tree, entries, first, (count - 1) as nat);
    }
}

/// Checks a directory on disk against the tree of a manifest.
///
/// `listing` is what the directory holds, or `None` where it does not exist
/// or could not be listed. The check passes where the directory could be
/// listed and every entry in it is accounted for: `tree` has a child of the
/// entry's name; for a file, the first such child carries the file's hash;
/// for a directory, the first such child passes the same check against what
/// the directory holds. What the tree names and the directory lacks is not
/// looked for.
pub fn verify_file_tree(tree: &FileNode, listing: &Option<Vec<DirEntry>>) -> (ok: bool)
    ensures
        ok == spec_verify_file_tree(tree@, spec_listing_view(*listing)),
    decreases listing,
{
    match listing {
        None => false,
        Some(entries) => {
            let ghost views = spec_entries_view(*entries);
            let mut at: usize = 0;
            while at < entries.len()
                invariant
                    at <= entries.len(),
                    views == spec_entries_view(*entries),
                    *listing == Some(*entries),
                    spec_entries_match(tree@, views, at as nat),
                decreases entries.len() - at,
            {
                proof {
                    lemma_entry_view(entries[at as int]);
                }
                let matches = match &entries[at] {
                    DirEntry::File { name, size: _, hash } => {
                        match find_child(tree, name.as_str()) {
                            Some(child) => {
                                proof {
                                    lemma_node_view(*child);
                                }
                                same_text(child.hash.as_str(), hash.as_str())
                            },
                            None => false,
                        }
                    },
                    DirEntry::Directory { name, entries: inside } => {
                        match find_child(tree, name.as_str()) {
                            Some(child) => verify_file_tree(child, inside),
                            None => false,
                        }
                    },
                };
                assert(matches == spec_entry_matches(tree@, views[at as int]));
                if !matches {
                    proof {
                        lemma_entries_mismatch(tree@, views, (at + 1) as nat, entries.len() as nat);
                    }
                    return false;
                }
                at += 1;
            }
            true
        },
    }
}

/// The members of an object after `key` was set to `value`: the first member
/// of that name is replaced and keeps its place; where there is none, the new
/// member comes last.
pub open spec fn spec_insert_member(
    members: Seq<(Seq<char>, JsonView)>,
    key: Seq<char>,
    value: JsonView,
) -> Seq<(Seq<char>, JsonView)> {
    match spec_member_from(members, key, 0) {
        Some(at) => members.update(at, (key, value)),
        None => members.push((key, value)),
    }
}

/// What a manifest says of a file of `size` bytes with the hash `hash`.
pub open spec fn spec_file_json(size: u64, hash: Seq<char>) -> JsonView {
    JsonView::Object(
        seq![
            ("type"@, JsonView::Text("file"@)),
            ("size"@, JsonView::Number(size)),
            ("hash"@, JsonView::Text(hash)),
        ],
    )
}

/// What a manifest says of one entry of a directory: of a file, its type,
/// size and hash; of a directory, what it says of the entries inside, and
/// that it is a directory. A directory that could not be listed, at any
/// depth, is an error.
pub open spec fn spec_entry_json(entry: DirEntryView) -> Result<JsonView, TorrentError>
    decreases entry, 0nat,
{
    match entry {
        DirEntryView::File { size, hash, .. } => Ok(spec_file_json(size, hash)),
        DirEntryView::Directory { entries: Some(inside), .. } => match spec_dir_members(
            inside,
            inside.len(),
        ) {
            Ok(members) => Ok(
                JsonView::Object(
                    spec_insert_member(members, "type"@, JsonView::Text("directory"@)),
                ),
            ),
            Err(error) => Err(error),
        },
        DirEntryView::Directory { entries: None, .. } => Err(TorrentError::Unreadable),
    }
}

/// The members that a manifest has for the first `count` entries of a
/// directory: each entry under its name, a later entry in the place of an
/// earlier one of the same name.
pub open spec fn spec_dir_members(entries: Seq<DirEntryView>, count: nat) -> Result<
    Seq<(Seq<char>, JsonView)>,
    TorrentError,
>
    decreases entries, count,
{
    if count == 0 || count > entries.len() {
        Ok(Seq::empty())
    } else {
        match spec_dir_members(entries, (count - 1) as nat) {
            Ok(before) => match spec_entry_json(entries[count - 1]) {
                Ok(json) => Ok(
                    spec_insert_member(before, spec_entry_name(entries[count - 1]), json),
                ),
                Err(error) => Err(error),
            },
            Err(error) => Err(error),
        }
    }
}

/// The manifest of a directory that holds `entries`.
pub open spec fn spec_dir_to_json(entries: Seq<DirEntryView>) -> Result<JsonView, TorrentError> {
    match spec_dir_members(entries, entries.len()) {
        Ok(members) => Ok(JsonView::Object(members)),
        Err(error) => Err(error),
    }
}

/// Whether `result` is `expected`, the members taken by their views.
pub open spec fn spec_same_members(
    result: Result<Vec<(String, Json)>, TorrentError>,
    expected: Result<Seq<(Seq<char>, JsonView)>, TorrentError>,
) -> bool {
    match result {
        Ok(members) => expected == Ok::<Seq<(Seq<char>, JsonView)>, TorrentError>(
            spec_members_view(members),
        ),
        Err(error) => expected == Err::<Seq<(Seq<char>, JsonView)>, TorrentError>(error),
    }
}

/// Whether `result` is `expected`, the JSON value taken by its view.
pub open spec fn spec_same_json(
    result: Result<Json, TorrentError>,
    expected: Result<JsonView, TorrentError>,
) -> bool {
    match result {
        Ok(json) => expected == Ok::<JsonView, TorrentError>(json@),
        Err(error) => expected == Err::<JsonView, TorrentError>(error),
    }
}

/// Sets the member `key` of an object to `value`: in the place of the first
/// member of that name, or at the end where there is none.
pub fn insert_member(members: &mut Vec<(String, Json)>, key: String, value: Json)
    ensures
        spec_members_view(*final(members)) == spec_insert_member(
            spec_members_view(*old(members)),
            key@,
            value@,
        ),
{
    let ghost before = spec_members_view(*members);
    let mut at: usize = 0;
    while at < members.len()
        invariant
            at <= members.len(),
            *members == *old(members),
            before == spec_members_view(*members),
            spec_member_from(before, key@, 0) == spec_member_from(before, key@, at as int),
        decreases members.len() - at,
    {
        if same_text(members[at].0.as_str(), key.as_str()) {
            members.set(at, (key, value));
            assert(spec_members_view(*members) =~= before.update(at as int, (key@, value@)));
            return ;
        }
        at += 1;
    }
    members.push((key, value));
    assert(spec_members_view(*members) =~= before.push((key@, value@)));
}

/// An unreadable directory among the first entries makes the whole directory
/// unreadable.
pub proof fn lemma_dir_members_error(entries: Seq<DirEntryView>, first: nat, count: nat)
    requires
        first <= count <= entries.len(),
        spec_dir_members(entries, first) is Err,
    ensures
        spec_dir_members(entries, count) == spec_dir_members(entries, first),
    decreases count,
{
    if first < count {
        lemma_dir_members_error(entries, first, (count - 1) as nat);
    }
}

/// What a manifest says of a file.
pub fn file_json(size: u64, hash: &str) -> (json: Json)
    ensures
        json@ == spec_file_json(size, hash@),
{
    let mut members: Vec<(String, Json)> = Vec::new();
    members.push((String::from_str("type"), Json::Text(String::from_str("file"))));
    members.push((String::from_str("size"), Json::Number(size)));
    members.push((String::from_str("hash"), Json::Text(String::from_str(hash))));
    let json = Json::Object(members);
    proof {
        lemma_object_view(json);
        assert(json@->Object_0 =~= spec_file_json(size, hash@)->Object_0);
    }
    json
}

/// The members of the manifest of a directory that holds `entries`.
pub fn dir_members(entries: &Vec<DirEntry>) -> (result: Result<Vec<(String, Json)>, TorrentError>)
    ensures
        spec_same_members(
            result,
            spec_dir_members(spec_entries_view(*entries), entries.len() as nat),
        ),
    decreases entries,
{
    let ghost views = spec_entries_view(*entries);
    let mut members: Vec<(String, Json)> = Vec::new();
    let mut at: usize = 0;
    assert(spec_members_view(members) =~= Seq::<(Seq<char>, JsonView)>::empty());
    while at < entries.len()
        invariant
            at <= entries.len(),
            views == spec_entries_view(*entries),
            spec_dir_members(views, at as nat) == Ok::<Seq<(Seq<char>, JsonView)>, TorrentError>(
                spec_members_view(members),
            ),
        decreases entries.len() - at,
    {
        proof {
            lemma_entry_view(entries[at as int]);
            assert(views[at as int] == entries[at as int]@);
        }
        let ghost before = spec_members_view(members);
        match &entries[at] {
            DirEntry::File { name, size, hash } => {
                assert(spec_entry_json(views[at as int]) == Ok::<JsonView, TorrentError>(
                    spec_file_json(*size, hash@),
                ));
                insert_member(&mut members, name.clone(), file_json(*size, hash.as_str()));
            },
            DirEntry::Directory { name, entries: Some(inside) } => {
                assert(views[at as int] == DirEntryView::Directory {
                    name: name@,
                    entries: Some(spec_entries_view(*inside)),
                });
                match dir_members(inside) {
                    Ok(below) => {
                        let ghost inner = spec_members_view(below);
                        let mut below = below;
                        insert_member(
                            &mut below,
                            String::from_str("type"),
                            Json::Text(String::from_str("directory")),
                        );
                        let json = Json::Object(below);
                        proof {
                            lemma_object_view(json);
                            assert(json@->Object_0 =~= spec_members_view(below));
                            assert(spec_entry_json(views[at as int]) == Ok::<
                                JsonView,
                                TorrentError,
                            >(json@));
                        }
                        insert_member(&mut members, name.clone(), json);
                    },
                    Err(error) => {
                        proof {
                            assert(spec_entry_json(views[at as int]) == Err::<
                                JsonView,
                                TorrentError,
                            >(error));
                            assert(spec_dir_members(views, (at + 1) as nat) == Err::<
                                Seq<(Seq<char>, JsonView)>,
                                TorrentError,
                            >(error));
                            lemma_dir_members_error(views, (at + 1) as nat, entries.len() as nat);
                        }
                        return Err(error);
                    },
                }
            },
            DirEntry::Directory { name, entries: None } => {
                proof {
                    assert(views[at as int] == DirEntryView::Directory {
                        name: name@,
                        entries: None,
                    });
                    assert(spec_entry_json(views[at as int]) == Err::<JsonView, TorrentError>(
                        TorrentError::Unreadable,
                    ));
                    assert(spec_dir_members(views, (at + 1) as nat) == Err::<
                        Seq<(Seq<char>, JsonView)>,
                        TorrentError,
                    >(TorrentError::Unreadable));
                    lemma_dir_members_error(views, (at + 1) as nat, entries.len() as nat);
                }
                return Err(TorrentError::Unreadable);
            },
        }
        at += 1;
    }
    Ok(members)
}

/// Writes down what a directory holds as the JSON value of its manifest.
///
/// Every entry becomes a member under its name, in the order of `entries`; of
/// two entries with one name the later one stays, in the place of the
/// earlier. A file is described by its type, size and hash; a directory by
/// what it holds, and by its type. A directory that could not be listed, at
/// any depth, is refused.
pub fn dir_to_json(entries: &Vec<DirEntry>) -> (result: Result<Json, TorrentError>)
    ensures
        spec_same_json(result, spec_dir_to_json(spec_entries_view(*entries))),
{
    match dir_members(entries) {
        Ok(members) => {
            let json = Json::Object(members);
            proof {
                lemma_object_view(json);
                assert(json@->Object_0 =~= spec_members_view(members));
            }
            Ok(json)
        },
        Err(error) => Err(error),
    }
}

/// Where the last component of the first `upto` characters of `path` begins:
/// behind the last slash among them, or at the start where there is none.
pub open spec fn spec_name_start(path: Seq<char>, upto: int) -> int
    decreases upto,
{
    if upto <= 0 || upto > path.len() {
        0
    } else if path[upto - 1] == '/' {
        upto
    } else {
        spec_name_start(path, upto - 1)
    }
}

/// The last component of a path: what stands behind its last slash, or all of
/// it where it has none. A path that ends in a slash has an empty last component.
pub open spec fn spec_last_component(path: Seq<char>) -> Seq<char> {
    path.subrange(spec_name_start(path, path.len() as int), path.len() as int)
}

/// The place of the manifest of the directory at `path`.
pub open spec fn spec_torrent_file_name(path: Seq<char>) -> Seq<char> {
    "./torrents/"@ + spec_last_component(path) + ".json"@
}

/// The last component of a path.
pub fn last_component(path: &str) -> (name: &str)
    ensures
        name@ == spec_last_component(path@),
{
    let len = path.unicode_len();
    let mut start: usize = len;
    while start > 0 && path.get_char(start - 1) != '/'
        invariant
            start <= len,
            len == path@.len(),
            spec_name_start(path@, len as int) == spec_name_start(path@, start as int),
        decreases start,
    {
        start -= 1;
    }
    path.substring_char(start, len)
}

/// Where the manifest of the directory at `path` is kept: under `./torrents/`,
/// named after the last component of the path, with the ending `.json`.
pub fn torrent_file_name(path: &str) -> (name: String)
    ensures
        name@ == spec_torrent_file_name(path@),
{
    let mut name = String::from_str("./torrents/");
    name.append(last_component(path));
    name.append(".json");
    name
}

/// The last component of a path holds no slash, and the path is what stands
/// before it, which is empty or ends in a slash, followed by it.
pub proof fn lemma_last_component(path: Seq<char>)
    ensures
        !spec_last_component(path).contains('/'),
        path == path.subrange(0, spec_name_start(path, path.len() as int)) + spec_last_component(
            path,
        ),
        spec_name_start(path, path.len() as int) == 0 || path[spec_name_start(
            path,
            path.len() as int,
        ) - 1] == '/',
{
    lemma_name_start(path, path.len() as int);
    let start = spec_name_start(path, path.len() as int);
    let name = spec_last_component(path);
    assert(path =~= path.subrange(0, start) + name);
    if name.contains('/') {
        let at = choose|at: int| 0 <= at < name.len() && name[at] == '/';
        assert(path[start + at] == '/');
    }
}

proof fn lemma_name_start(path: Seq<char>, upto: int)
    requires
        0 <= upto <= path.len(),
    ensures
        0 <= spec_name_start(path, upto) <= upto,
        forall|at: int| spec_name_start(path, upto) <= at < upto ==> path[at] != '/',
        spec_name_start(path, upto) == 0 || path[spec_name_start(path, upto) - 1] == '/',
    decreases upto,
{
    if upto > 0 && path[upto - 1] != '/' {
        lemma_name_start(path, upto - 1);
    }
}

/// The tree that describes one entry of a directory: a file with its size
/// and hash, or a directory over the trees of what it holds.
pub open spec fn spec_entry_tree(entry: DirEntryView) -> FileNodeView
    decreases entry, 0nat,
{
    match entry {
        DirEntryView::File { name, size, hash } => FileNodeView {
            filename: name,
            file_type: FileType::FILE,
            size,
            hash,
            children: Seq::empty(),
        },
        DirEntryView::Directory { name, entries: Some(inside) } => FileNodeView {
            filename: name,
            file_type: FileType::DIRECTORY,
            size: 0,
            hash: Seq::empty(),
            children: spec_listing_trees(inside, inside.len()),
        },
        DirEntryView::Directory { name, entries: None } => FileNodeView {
            filename: name,
            file_type: FileType::DIRECTORY,
            size: 0,
            hash: Seq::empty(),
            children: Seq::empty(),
        },
    }
}

/// The trees that describe the first `count` entries of a directory, in order.
pub open spec fn spec_listing_trees(entries: Seq<DirEntryView>, count: nat) -> Seq<FileNodeView>
    decreases entries, count,
{
    if count == 0 || count > entries.len() {
        Seq::empty()
    } else {
        spec_listing_trees(entries, (count - 1) as nat).push(spec_entry_tree(entries[count - 1]))
    }
}

/// Whether no two of the entries have the same name.
pub open spec fn spec_distinct_names(entries: Seq<DirEntryView>) -> bool {
    forall|first: int, second: int|
        0 <= first < second < entries.len() ==> spec_entry_name(#[trigger] entries[first])
            != spec_entry_name(#[trigger] entries[second])
}

/// Whether a manifest can describe one entry without loss: what it holds can
/// be described, and below the top of the tree it is not named "type", the
/// name under which a manifest keeps the type of a directory.
pub open spec fn spec_describable_entry(entry: DirEntryView, top: bool) -> bool
    decreases entry, 0nat,
{
    &&& top || spec_entry_name(entry) != "type"@
    &&& match entry {
        DirEntryView::File { .. } => true,
        DirEntryView::Directory { entries: Some(inside), .. } => spec_distinct_names(inside)
            && spec_describable_first(inside, inside.len(), false),
        DirEntryView::Directory { entries: None, .. } => false,
    }
}

/// Whether a manifest can describe each of the first `count` entries without loss.
pub open spec fn spec_describable_first(entries: Seq<DirEntryView>, count: nat, top: bool) -> bool
    decreases entries, count,
{
    if count == 0 || count > entries.len() {
        true
    } else {
        spec_describable_first(entries, (count - 1) as nat, top) && spec_describable_entry(
            entries[count - 1],
            top,
        )
    }
}

/// Whether a manifest can describe what a directory holds without loss: every
/// directory in it, at any depth, could be listed and holds no two entries of
/// one name, and nothing below the top is named "type".
pub open spec fn spec_describable(entries: Seq<DirEntryView>) -> bool {
    spec_distinct_names(entries) && spec_describable_first(entries, entries.len(), true)
}

/// The trees of a listing are the trees of its entries, one for one.
pub proof fn lemma_listing_trees(entries: Seq<DirEntryView>, count: nat)
    requires
        count <= entries.len(),
    ensures
        spec_listing_trees(entries, count).len() == count,
        forall|at: int|
            0 <= at < count ==> #[trigger] spec_listing_trees(entries, count)[at]
                == spec_entry_tree(entries[at]),
    decreases count,
{
    if count > 0 {
        lemma_listing_trees(entries, (count - 1) as nat);
    }
}

/// Each of the first entries of a describable listing is describable.
pub proof fn lemma_describable_first(entries: Seq<DirEntryView>, count: nat, top: bool, at: int)
    requires
        count <= entries.len(),
        spec_describable_first(entries, count, top),
        0 <= at < count,
    ensures
        spec_describable_entry(entries[at], top),
    decreases count,
{
    if at < count - 1 {
        lemma_describable_first(entries, (count - 1) as nat, top, at);
    }
}

/// An object in which no member from `from` on is named `key` has no member
/// `key` from there on.
pub proof fn lemma_member_absent(members: Seq<(Seq<char>, JsonView)>, key: Seq<char>, from: int)
    requires
        0 <= from,
        forall|at: int| from <= at < members.len() ==> (#[trigger] members[at]).0 != key,
    ensures
        spec_member_from(members, key, from) is None,
    decreases members.len() - from,
{
    if from < members.len() {
        lemma_member_absent(members, key, from + 1);
    }
}

/// The first member named `key` is found where it stands.
pub proof fn lemma_member_found(
    members: Seq<(Seq<char>, JsonView)>,
    key: Seq<char>,
    from: int,
    at: int,
)
    requires
        0 <= from <= at < members.len(),
        members[at].0 == key,
        forall|before: int| from <= before < at ==> (#[trigger] members[before]).0 != key,
    ensures
        spec_member_from(members, key, from) == Some(at),
    decreases at - from,
{
    if from < at {
        lemma_member_found(members, key, from + 1, at);
    }
}

/// The first child named `name` is found where it stands.
pub proof fn lemma_child_found(children: Seq<FileNodeView>, name: Seq<char>, from: int, at: int)
    requires
        0 <= from <= at < children.len(),
        children[at].filename == name,
        forall|before: int| from <= before < at ==> (#[trigger] children[before]).filename != name,
    ensures
        spec_child_from(children, name, from) == Some(at),
    decreases at - from,
{
    if from < at {
        lemma_child_found(children, name, from + 1, at);
    }
}

/// Members that are entries of a directory, each with the tree it describes,
/// are read back as those trees, in order; a last member that holds the type
/// of the directory adds nothing.
pub proof fn lemma_parse_members_of(
    members: Seq<(Seq<char>, JsonView)>,
    trees: Seq<FileNodeView>,
    count: nat,
)
    requires
        trees.len() <= members.len(),
        count <= members.len(),
        forall|at: int|
            0 <= at < trees.len() ==> (#[trigger] members[at]).0 != "type"@ && spec_parse_tree(
                members[at].0,
                members[at].1,
            ) == Ok::<FileNodeView, TorrentError>(trees[at]),
        forall|at: int| trees.len() <= at < members.len() ==> (#[trigger] members[at]).0 == "type"@,
    ensures
        spec_parse_members(members, count) == Ok::<Seq<FileNodeView>, TorrentError>(
            if count <= trees.len() {
                trees.subrange(0, count as int)
            } else {
                trees
            },
        ),
    decreases count,
{
    if count > 0 {
        lemma_parse_members_of(members, trees, (count - 1) as nat);
        if count <= trees.len() {
            assert(trees.subrange(0, count as int) =~= trees.subrange(0, count - 1).push(
                trees[count - 1],
            ));
        } else {
            assert(trees.subrange(0, trees.len() as int) =~= trees);
        }
    } else {
        assert(trees.subrange(0, 0) =~= Seq::<FileNodeView>::empty());
    }
}

/// Members at the top of a manifest that are files or directories, each with
/// the tree it describes, are read back as those trees, in order.
pub proof fn lemma_parse_roots_of(
    members: Seq<(Seq<char>, JsonView)>,
    trees: Seq<FileNodeView>,
    count: nat,
)
    requires
        trees.len() == members.len(),
        count <= members.len(),
        forall|at: int|
            0 <= at < trees.len() ==> (#[trigger] trees[at]).file_type != FileType::NONE
                && spec_parse_tree(members[at].0, members[at].1) == Ok::<
                FileNodeView,
                TorrentError,
            >(trees[at]),
    ensures
        spec_parse_roots(members, count) == Ok::<Seq<FileNodeView>, TorrentError>(
            trees.subrange(0, count as int),
        ),
    decreases count,
{
    if count > 0 {
        lemma_parse_roots_of(members, trees, (count - 1) as nat);
        assert(trees[count - 1].file_type != FileType::NONE);
        assert(trees.subrange(0, count as int) =~= trees.subrange(0, count - 1).push(
            trees[count - 1],
        ));
    } else {
        assert(trees.subrange(0, 0) =~= Seq::<FileNodeView>::empty());
    }
}

/// What a manifest says of a describable entry is read back as the tree of
/// that entry.
pub proof fn lemma_entry_round_trip(entry: DirEntryView, top: bool)
    requires
        spec_describable_entry(entry, top),
    ensures
        spec_entry_json(entry) is Ok,
        spec_parse_tree(spec_entry_name(entry), spec_entry_json(entry)->Ok_0) == Ok::<
            FileNodeView,
            TorrentError,
        >(spec_entry_tree(entry)),
        spec_entry_tree(entry).file_type != FileType::NONE,
        spec_entry_tree(entry).filename == spec_entry_name(entry),
    decreases entry, 0nat,
{
    reveal_strlit("type");
    reveal_strlit("size");
    reveal_strlit("hash");
    reveal_strlit("file");
    reveal_strlit("directory");
    assert("type"@ != "size"@) by {
        assert("type"@[0] != "size"@[0]);
    }
    assert("type"@ != "hash"@) by {
        assert("type"@[0] != "hash"@[0]);
    }
    assert("size"@ != "hash"@) by {
        assert("size"@[0] != "hash"@[0]);
    }
    assert("directory"@ != "file"@) by {
        assert("directory"@[0] != "file"@[0]);
    }
    match entry {
        DirEntryView::File { name, size, hash } => {
            let members = spec_file_json(size, hash)->Object_0;
            lemma_member_found(members, "type"@, 0, 0);
            lemma_member_found(members, "size"@, 0, 1);
            lemma_member_found(members, "hash"@, 0, 2);
        },
        DirEntryView::Directory { name, entries: Some(inside) } => {
            lemma_listing_round_trip(inside, inside.len(), false);
            let members = spec_dir_members(inside, inside.len())->Ok_0;
            let trees = spec_listing_trees(inside, inside.len());
            lemma_listing_trees(inside, inside.len());
            assert forall|at: int| 0 <= at < members.len() implies (#[trigger] members[at]).0
                != "type"@ by {
                lemma_describable_first(inside, inside.len(), false, at);
            }
            lemma_member_absent(members, "type"@, 0);
            let marked = members.push(("type"@, JsonView::Text("directory"@)));
            assert(spec_insert_member(members, "type"@, JsonView::Text("directory"@)) == marked);
            assert(spec_entry_json(entry) == Ok::<JsonView, TorrentError>(
                JsonView::Object(marked),
            ));
            lemma_member_found(marked, "type"@, 0, members.len() as int);
            assert(spec_field(JsonView::Object(marked), "type"@) == JsonView::Text("directory"@));
            lemma_parse_members_of(marked, trees, marked.len());
        },
        DirEntryView::Directory { name, entries: None } => {},
    }
}

/// What a manifest says of the first entries of a describable listing: one
/// member for each entry, under the entry's name, that is read back as the
/// tree of the entry.
pub proof fn lemma_listing_round_trip(entries: Seq<DirEntryView>, count: nat, top: bool)
    requires
        count <= entries.len(),
        spec_distinct_names(entries),
        spec_describable_first(entries, entries.len(), top),
    ensures
        spec_dir_members(entries, count) is Ok,
        spec_dir_members(entries, count)->Ok_0.len() == count,
        forall|at: int|
            0 <= at < count ==> {
                let member = #[trigger] spec_dir_members(entries, count)->Ok_0[at];
                &&& member.0 == spec_entry_name(entries[at])
                &&& spec_entry_json(entries[at]) == Ok::<JsonView, TorrentError>(member.1)
                &&& spec_parse_tree(member.0, member.1) == Ok::<FileNodeView, TorrentError>(
                    spec_entry_tree(entries[at]),
                )
            },
    decreases entries, count,
{
    if count > 0 {
        let entry = entries[count - 1];
        let name = spec_entry_name(entry);
        lemma_listing_round_trip(entries, (count - 1) as nat, top);
        lemma_describable_first(entries, entries.len(), top, count - 1);
        lemma_entry_round_trip(entry, top);
        let before = spec_dir_members(entries, (count - 1) as nat)->Ok_0;
        assert forall|at: int| 0 <= at < before.len() implies (#[trigger] before[at]).0 != name by {
            assert(spec_entry_name(entries[at]) != spec_entry_name(entries[count - 1]));
        }
        lemma_member_absent(before, name, 0);
        let json = spec_entry_json(entry)->Ok_0;
        assert(spec_dir_members(entries, count) == Ok::<Seq<(Seq<char>, JsonView)>, TorrentError>(
            before.push((name, json)),
        ));
    }
}

/// A directory passes the check against the tree that describes it.
pub proof fn lemma_listing_verifies(
    tree: FileNodeView,
    entries: Seq<DirEntryView>,
    count: nat,
    top: bool,
)
    requires
        count <= entries.len(),
        spec_distinct_names(entries),
        spec_describable_first(entries, entries.len(), top),
        tree.children == spec_listing_trees(entries, entries.len()),
    ensures
        spec_entries_match(tree, entries, count),
    decreases entries, count,
{
    if count > 0 {
        let entry = entries[count - 1];
        let name = spec_entry_name(entry);
        lemma_listing_verifies(tree, entries, (count - 1) as nat, top);
        lemma_listing_trees(entries, entries.len());
        lemma_describable_first(entries, entries.len(), top, count - 1);
        assert forall|before: int| 0 <= before < count - 1 implies (
        #[trigger] tree.children[before]).filename != name by {
            assert(spec_entry_name(entries[before]) != spec_entry_name(entries[count - 1]));
        }
        assert(tree.children[count - 1] == spec_entry_tree(entry));
        lemma_child_found(tree.children, name, 0, count - 1);
        match entry {
            DirEntryView::Directory { entries: Some(inside), .. } => {
                lemma_listing_verifies(spec_entry_tree(entry), inside, inside.len(), false);
            },
            _ => {},
        }
        assert(spec_entry_matches(tree, entry));
    }
}

/// A manifest that is written and read again describes the directory it was
/// written for. Where the directory is describable, its manifest can be
/// written; the manifest reads back as a tree that has, under its root, the
/// trees of the directory's entries, one for one; and the directory passes
/// the check against that tree.
pub proof fn lemma_manifest_round_trip(filename: Seq<char>, entries: Seq<DirEntryView>)
    requires
        spec_describable(entries),
    ensures
        spec_dir_to_json(entries) is Ok,
        spec_parse_torrent_file(filename, spec_dir_to_json(entries)->Ok_0) is Ok,
        spec_parse_torrent_file(filename, spec_dir_to_json(entries)->Ok_0)->Ok_0 == (FileNodeView {
            filename,
            file_type: FileType::NONE,
            size: 0,
            hash: Seq::empty(),
            children: spec_listing_trees(entries, entries.len()),
        }),
        spec_verify_file_tree(
            spec_parse_torrent_file(filename, spec_dir_to_json(entries)->Ok_0)->Ok_0,
            Some(entries),
        ),
{
    let trees = spec_listing_trees(entries, entries.len());
    lemma_listing_round_trip(entries, entries.len(), true);
    lemma_listing_trees(entries, entries.len());
    let members = spec_dir_members(entries, entries.len())->Ok_0;
    assert forall|at: int| 0 <= at < trees.len() implies (#[trigger] trees[at]).file_type
        != FileType::NONE && spec_parse_tree(members[at].0, members[at].1) == Ok::<
        FileNodeView,
        TorrentError,
    >(trees[at]) by {
        lemma_describable_first(entries, entries.len(), true, at);
        lemma_entry_round_trip(entries[at], true);
    }
    lemma_parse_roots_of(members, trees, members.len());
    assert(trees.subrange(0, members.len() as int) =~= trees);
    let tree = spec_parse_torrent_file(filename, spec_dir_to_json(entries)->Ok_0)->Ok_0;
    lemma_listing_verifies(tree, entries, entries.len(), true);
}

} // verus!
