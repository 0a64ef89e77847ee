//! Where a daemon keeps its socket and its files: each configuration has its own.
//!
//! Paths are sequences of bytes.

use vstd::prelude::*;
use vstd::utf8::encode_utf8;

use crate::security::{hex, to_hex};
use crate::text::{decimal, write_decimal};

verus! {

/// What is said where the platform has no Unix sockets.
pub const WINDOWS_UNSUPPORTED_MESSAGE: &'static str =
    "wand-render does not support Windows yet: named pipes are not implemented";

/// The byte between the pieces of a path.
pub const SEPARATOR: u8 = 0x2f;

/// The byte that stands for the directory itself, and twice for the one above.
pub const DOT: u8 = 0x2e;

/// The SHA-256 digest of some bytes.
pub uninterp spec fn sha256_digest(bytes: Seq<u8>) -> Seq<u8>;

/// `sha2::Sha256::digest`, whose result has thirty-two bytes.
#[verifier::external_body]
fn sha256(bytes: &[u8]) -> (digest: Vec<u8>)
    ensures
        digest@ == sha256_digest(bytes@),
        digest@.len() == 32,
{
    <sha2::Sha256 as sha2::Digest>::digest(bytes).to_vec()
}

/// The pieces of a path between its separators; some may be empty.
pub open spec fn pieces(path: Seq<u8>) -> Seq<Seq<u8>>
    decreases path.len(),
{
    if path.len() == 0 {
        seq![Seq::empty()]
    } else {
        let before = pieces(path.drop_last());
        if path.last() == SEPARATOR {
            before.push(Seq::empty())
        } else {
            before.drop_last().push(before.last().push(path.last()))
        }
    }
}

/// A path without empty pieces and without dots.
#[verifier::ext_equal]
pub struct Resolved {
    /// Whether it starts at the root.
    pub absolute: bool,
    pub names: Seq<Seq<u8>>,
}

/// What pieces lead to: an empty one and a single dot lead nowhere, two dots lead to the directory
/// above, which for the root is the root.
pub open spec fn resolved(pieces: Seq<Seq<u8>>, absolute: bool) -> Resolved
    decreases pieces.len(),
{
    if pieces.len() == 0 {
        Resolved { absolute, names: Seq::empty() }
    } else {
        let before = resolved(pieces.drop_last(), absolute);
        let piece = pieces.last();
        if piece.len() == 0 || piece == seq![DOT] {
            before
        } else if piece == seq![DOT, DOT] {
            if before.names.len() > 0 {
                Resolved { names: before.names.drop_last(), ..before }
            } else {
                Resolved { absolute: true, ..before }
            }
        } else {
            Resolved { names: before.names.push(piece), ..before }
        }
    }
}

/// Names, each with a separator before it.
pub open spec fn rooted(names: Seq<Seq<u8>>) -> Seq<u8>
    decreases names.len(),
{
    if names.len() == 0 {
        Seq::empty()
    } else {
        rooted(names.drop_last()).push(SEPARATOR) + names.last()
    }
}

/// How a path is written; without any name it is the root.
pub open spec fn path_of(place: Resolved) -> Seq<u8> {
    if place.names.len() == 0 {
        seq![SEPARATOR]
    } else if place.absolute {
        rooted(place.names)
    } else {
        rooted(place.names).skip(1)
    }
}

/// Whether a path starts at the root.
pub open spec fn is_absolute(path: Seq<u8>) -> bool {
    path.len() > 0 && path[0] == SEPARATOR
}

/// A path as seen from a working directory, if that is known.
pub open spec fn joined(path: Seq<u8>, cwd: Option<Seq<u8>>) -> Seq<u8> {
    if is_absolute(path) {
        path
    } else {
        match cwd {
            Some(cwd) => cwd.push(SEPARATOR) + path,
            None => path,
        }
    }
}

/// A path from the root, without dots.
pub open spec fn absolute_path(path: Seq<u8>, cwd: Option<Seq<u8>>) -> Seq<u8> {
    let whole = joined(path, cwd);
    path_of(resolved(pieces(whole), is_absolute(whole)))
}

/// What byte sequences are.
pub open spec fn byte_views(all: Seq<Vec<u8>>) -> Seq<Seq<u8>> {
    Seq::new(all.len(), |i: int| all[i]@)
}

fn split(path: &[u8]) -> (found: Vec<Vec<u8>>)
    ensures
        byte_views(found@) == pieces(path@),
{
    let mut done: Vec<Vec<u8>> = Vec::new();
    let mut current: Vec<u8> = Vec::new();
    let mut index: usize = 0;
    assert(path@.take(0) == Seq::<u8>::empty());
    assert(byte_views(done@).push(current@) == seq![Seq::<u8>::empty()]);
    while index < path.len()
        invariant
            index <= path@.len(),
            byte_views(done@).push(current@) == pieces(path@.take(index as int)),
        decreases path@.len() - index,
    {
        let ghost before = byte_views(done@).push(current@);
        assert(path@.take(index + 1).drop_last() == path@.take(index as int));
        assert(before.drop_last() == byte_views(done@));
        if path[index] == SEPARATOR {
            done.push(current);
            current = Vec::new();
            assert(byte_views(done@) == before);
        } else {
            current.push(path[index]);
        }
        index = index + 1;
    }
    assert(path@.take(index as int) == path@);
    let ghost before = byte_views(done@).push(current@);
    done.push(current);
    assert(byte_views(done@) == before);
    done
}

/// A path from the root, seen from a working directory if it does not start at the root, without
/// dots and without repeated separators. Links are not followed.
pub fn lexical_absolute(path: &[u8], cwd: Option<&[u8]>) -> (absolute: Vec<u8>)
    ensures
        absolute@ == absolute_path(path@, optional_bytes(cwd)),
{
    let mut whole: Vec<u8> = Vec::new();
    let rooted_path = path.len() > 0 && path[0] == SEPARATOR;
    if !rooted_path {
        if let Some(cwd) = cwd {
            whole.extend_from_slice(cwd);
            whole.push(SEPARATOR);
        }
    }
    whole.extend_from_slice(path);
    assert(whole@ == joined(path@, optional_bytes(cwd)));
    let start = whole.len() > 0 && whole[0] == SEPARATOR;
    let parts = split(whole.as_slice());
    let ghost all = pieces(whole@);
    let mut absolute: bool = start;
    let mut names: Vec<Vec<u8>> = Vec::new();
    let mut index: usize = 0;
    assert(all.take(0) == Seq::<Seq<u8>>::empty());
    assert(byte_views(names@) == Seq::<Seq<u8>>::empty());
    while index < parts.len()
        invariant
            index <= parts@.len(),
            all == byte_views(parts@),
            (Resolved { absolute, names: byte_views(names@) }) == resolved(
                all.take(index as int),
                start,
            ),
        decreases parts@.len() - index,
    {
        let piece: &Vec<u8> = &parts[index];
        let ghost before = byte_views(names@);
        proof {
            assert(all.take(index + 1).drop_last() == all.take(index as int));
            assert(all.take(index + 1).last() == piece@);
            assert((piece@.len() == 1 && piece@[0] == DOT) == (piece@ =~= seq![DOT]));
            assert((piece@.len() == 2 && piece@[0] == DOT && piece@[1] == DOT) == (piece@ =~= seq![
                DOT,
                DOT,
            ]));
        }
        if piece.len() == 0 || (piece.len() == 1 && piece[0] == DOT) {
        } else if piece.len() == 2 && piece[0] == DOT && piece[1] == DOT {
            if names.len() > 0 {
                let _ = names.pop();
                assert(byte_views(names@) == before.drop_last());
            } else {
                absolute = true;
            }
        } else {
            names.push(vstd::slice::slice_to_vec(piece.as_slice()));
            assert(byte_views(names@) == before.push(piece@));
        }
        index = index + 1;
    }
    assert(all.take(index as int) == all);
    write_path(absolute, &names)
}

fn write_path(absolute: bool, names: &Vec<Vec<u8>>) -> (path: Vec<u8>)
    ensures
        path@ == path_of(Resolved { absolute, names: byte_views(names@) }),
{
    let ghost all = byte_views(names@);
    let mut path: Vec<u8> = Vec::new();
    if names.len() == 0 {
        path.push(SEPARATOR);
        assert(path@ == seq![SEPARATOR]);
        return path;
    }
    let mut index: usize = 0;
    assert(all.take(0) == Seq::<Seq<u8>>::empty());
    while index < names.len()
        invariant
            index <= names@.len(),
            all == byte_views(names@),
            path@ == (if absolute || index == 0 {
                rooted(all.take(index as int))
            } else {
                rooted(all.take(index as int)).skip(1)
            }),
            index > 0 ==> rooted(all.take(index as int)).len() > 0,
        decreases names@.len() - index,
    {
        let ghost so_far = rooted(all.take(index as int));
        assert(all.take(index + 1).drop_last() == all.take(index as int));
        assert(rooted(all.take(index + 1)) == so_far.push(SEPARATOR) + names@[index as int]@);
        if absolute || index > 0 {
            path.push(SEPARATOR);
        }
        path.extend_from_slice(names[index].as_slice());
        proof {
            if index == 0 {
                assert(so_far == Seq::<u8>::empty());
            }
            if !absolute {
                assert(path@ == rooted(all.take(index + 1)).skip(1));
            } else {
                assert(path@ == rooted(all.take(index + 1)));
            }
        }
        index = index + 1;
    }
    assert(all.take(index as int) == all);
    path
}

/// The bytes before the last separator of a path; the root, where there are none.
pub open spec fn directory(path: Seq<u8>) -> Seq<u8>
    decreases path.len(),
{
    if path.len() == 0 {
        seq![SEPARATOR]
    } else if path.last() == SEPARATOR {
        if path.len() == 1 {
            seq![SEPARATOR]
        } else {
            path.drop_last()
        }
    } else {
        directory(path.drop_last())
    }
}

fn directory_of(path: &[u8]) -> (dir: Vec<u8>)
    ensures
        dir@ == directory(path@),
{
    let mut end: usize = path.len();
    assert(path@.take(end as int) == path@);
    while end > 0 && path[end - 1] != SEPARATOR
        invariant
            end <= path@.len(),
            directory(path@) == directory(path@.take(end as int)),
        decreases end,
    {
        assert(path@.take(end as int).drop_last() == path@.take(end - 1));
        end = end - 1;
    }
    if end > 1 {
        assert(path@.take(end as int).drop_last() == path@.subrange(0, end - 1));
        vstd::slice::slice_to_vec(vstd::slice::slice_subrange(path, 0, end - 1))
    } else {
        let mut root: Vec<u8> = Vec::new();
        root.push(SEPARATOR);
        assert(root@ == seq![SEPARATOR]);
        root
    }
}

/// Where a daemon keeps its socket and its files.
#[derive(Debug, Clone, PartialEq, Eq)]
pub struct RenderPaths {
    pub socket_path: Vec<u8>,
    pub token_path: Vec<u8>,
    pub pid_path: Vec<u8>,
    pub meta_path: Vec<u8>,
}

impl RenderPaths {
    /// The directory of the configuration.
    pub fn config_dir(&self) -> (dir: Vec<u8>)
        ensures
            dir@ == directory(self.token_path@),
    {
        directory_of(self.token_path.as_slice())
    }
}

/// What tells the daemons of different configurations apart: the beginning of the digest of the
/// path, in hexadecimal.
pub open spec fn suffix_of(path: Seq<u8>) -> Seq<char> {
    hex(sha256_digest(path).take(6))
}

/// What tells the daemons of different configurations apart.
pub fn config_suffix(resolved_config_path: &[u8]) -> (suffix: String)
    ensures
        suffix@ == suffix_of(resolved_config_path@),
        suffix@.len() == 12,
{
    let digest = sha256(resolved_config_path);
    let head = vstd::slice::slice_subrange(digest.as_slice(), 0, 6);
    assert(head@ == digest@.take(6));
    proof {
        crate::security::lemma_hex_length(head@);
    }
    to_hex(head)
}

/// The path of a configuration by which a daemon is known: what the system makes of it, following
/// links, where it exists; else its path from the root without dots.
pub open spec fn config_path_of(
    path: Seq<u8>,
    cwd: Option<Seq<u8>>,
    canonical: Option<Seq<u8>>,
) -> Seq<u8> {
    match canonical {
        Some(canonical) => canonical,
        None => absolute_path(path, cwd),
    }
}

/// The path of a file in a directory.
pub open spec fn file_in(dir: Seq<u8>, name: Seq<u8>) -> Seq<u8> {
    if dir.len() > 0 && dir.last() == SEPARATOR {
        dir + name
    } else {
        dir.push(SEPARATOR) + name
    }
}

/// The path of a socket.
pub open spec fn socket_text(family: Seq<char>, uid: u32, suffix: Seq<char>) -> Seq<char> {
    "/tmp/wand-"@ + family + "-"@ + decimal(uid as nat) + "-"@ + suffix + ".sock"@
}

/// The name of a file.
pub open spec fn file_text(family: Seq<char>, suffix: Seq<char>, extension: Seq<char>) -> Seq<char> {
    "."@ + family + "-"@ + suffix + extension
}

/// Whether these are the paths of a family of daemons for a configuration.
pub open spec fn are_paths(
    paths: RenderPaths,
    family: Seq<char>,
    config: Seq<u8>,
    uid: u32,
) -> bool {
    let suffix = suffix_of(config);
    let dir = directory(config);
    &&& paths.socket_path@ == encode_utf8(socket_text(family, uid, suffix))
    &&& paths.token_path@ == file_in(dir, encode_utf8(file_text(family, suffix, ".token"@)))
    &&& paths.pid_path@ == file_in(dir, encode_utf8(file_text(family, suffix, ".pid"@)))
    &&& paths.meta_path@ == file_in(dir, encode_utf8(file_text(family, suffix, ".json"@)))
}

fn file_path(dir: &Vec<u8>, family: &str, suffix: &str, extension: &str) -> (path: Vec<u8>)
    ensures
        path@ == file_in(dir@, encode_utf8(file_text(family@, suffix@, extension@))),
{
    let mut name = ".".to_owned();
    name.append(family);
    name.append("-");
    name.append(suffix);
    name.append(extension);
    let mut path: Vec<u8> = vstd::slice::slice_to_vec(dir.as_slice());
    if !(dir.len() > 0 && dir[dir.len() - 1] == SEPARATOR) {
        path.push(SEPARATOR);
    }
    path.extend_from_slice(name.as_str().as_bytes());
    path
}

fn paths_for(family: &str, config: &[u8], uid: u32) -> (paths: RenderPaths)
    ensures
        are_paths(paths, family@, config@, uid),
{
    let suffix = config_suffix(config);
    let dir = directory_of(config);
    let mut socket = "/tmp/wand-".to_owned();
    socket.append(family);
    socket.append("-");
    socket.append(write_decimal(uid as u128).as_str());
    socket.append("-");
    socket.append(suffix.as_str());
    socket.append(".sock");
    RenderPaths {
        socket_path: vstd::slice::slice_to_vec(socket.as_str().as_bytes()),
        token_path: file_path(&dir, family, suffix.as_str(), ".token"),
        pid_path: file_path(&dir, family, suffix.as_str(), ".pid"),
        meta_path: file_path(&dir, family, suffix.as_str(), ".json"),
    }
}

fn config_path(path: &[u8], cwd: Option<&[u8]>, canonical: Option<&[u8]>) -> (config: Vec<u8>)
    ensures
        config@ == config_path_of(path@, optional_bytes(cwd), optional_bytes(canonical)),
{
    match canonical {
        Some(canonical) => vstd::slice::slice_to_vec(canonical),
        None => lexical_absolute(path, cwd),
    }
}

/// The meaning of optional bytes.
pub open spec fn optional_bytes(bytes: Option<&[u8]>) -> Option<Seq<u8>> {
    match bytes {
        Some(bytes) => Some(bytes@),
        None => None,
    }
}

/// Where the terminal daemon keeps its socket and its files. `canonical` is what the system makes
/// of `lexical_absolute(config_path)`, following links, where that exists.
pub fn render_paths(
    config_path: &[u8],
    cwd: Option<&[u8]>,
    canonical: Option<&[u8]>,
    uid: u32,
) -> (paths: RenderPaths)
    ensures
        are_paths(
            paths,
            "render"@,
            config_path_of(config_path@, optional_bytes(cwd), optional_bytes(canonical)),
            uid,
        ),
{
    let config = self::config_path(config_path, cwd, canonical);
    paths_for("render", config.as_slice(), uid)
}

/// Where the daemon of the structured protocol keeps its socket and its files.
pub fn structured_render_paths(
    config_path: &[u8],
    cwd: Option<&[u8]>,
    canonical: Option<&[u8]>,
    uid: u32,
) -> (paths: RenderPaths)
    ensures
        are_paths(
            paths,
            "structured-render"@,
            config_path_of(config_path@, optional_bytes(cwd), optional_bytes(canonical)),
            uid,
        ),
{
    let config = self::config_path(config_path, cwd, canonical);
    paths_for("structured-render", config.as_slice(), uid)
}

/// Whether some bytes can be a name in a path: not empty, no dots, no separator.
pub open spec fn is_name(name: Seq<u8>) -> bool {
    &&& name.len() > 0
    &&& name != seq![DOT]
    &&& name != seq![DOT, DOT]
    &&& !name.contains(SEPARATOR)
}

proof fn lemma_pieces(path: Seq<u8>)
    ensures
        pieces(path).len() > 0,
        forall|i: int| 0 <= i < pieces(path).len() ==> !(#[trigger] pieces(path)[i]).contains(SEPARATOR),
    decreases path.len(),
{
    if path.len() > 0 {
        lemma_pieces(path.drop_last());
        let before = pieces(path.drop_last());
        let after = pieces(path);
        assert forall|i: int| 0 <= i < after.len() implies !(#[trigger] after[i]).contains(SEPARATOR) by {
            if i < before.len() - 1 || (i < before.len() && path.last() == SEPARATOR) {
                assert(after[i] == before[i]);
            } else if path.last() != SEPARATOR {
                assert(after[i] == before.last().push(path.last()));
                assert(!before[before.len() - 1].contains(SEPARATOR));
                assert forall|k: int| 0 <= k < after[i].len() implies after[i][k] != SEPARATOR by {
                    if k < before.last().len() {
                        assert(before.last()[k] != SEPARATOR);
                    }
                }
            }
        }
    }
}

proof fn lemma_resolved_names(pieces: Seq<Seq<u8>>, absolute: bool)
    requires
        forall|i: int| 0 <= i < pieces.len() ==> !(#[trigger] pieces[i]).contains(SEPARATOR),
    ensures
        forall|i: int|
            0 <= i < resolved(pieces, absolute).names.len() ==> is_name(
                #[trigger] resolved(pieces, absolute).names[i],
            ),
        absolute ==> resolved(pieces, absolute).absolute,
    decreases pieces.len(),
{
    if pieces.len() > 0 {
        let rest = pieces.drop_last();
        assert forall|i: int| 0 <= i < rest.len() implies !(#[trigger] rest[i]).contains(SEPARATOR) by {
            assert(rest[i] == pieces[i]);
        }
        lemma_resolved_names(rest, absolute);
        assert(!pieces[pieces.len() - 1].contains(SEPARATOR));
        let before = resolved(rest, absolute).names;
        let after = resolved(pieces, absolute).names;
        assert forall|i: int| 0 <= i < after.len() implies is_name(#[trigger] after[i]) by {
            if i < before.len() {
                assert(is_name(before[i]));
                assert(after[i] == before[i]);
            }
        }
    }
}

proof fn lemma_pieces_of_name(path: Seq<u8>, name: Seq<u8>)
    requires
        !name.contains(SEPARATOR),
    ensures
        pieces(path.push(SEPARATOR) + name) == pieces(path).push(name),
    decreases name.len(),
{
    let whole = path.push(SEPARATOR) + name;
    if name.len() == 0 {
        assert(whole == path.push(SEPARATOR));
        assert(whole.drop_last() == path);
        assert(name == Seq::<u8>::empty());
    } else {
        assert(name[name.len() - 1] != SEPARATOR);
        assert(!name.drop_last().contains(SEPARATOR)) by {
            assert forall|k: int| 0 <= k < name.drop_last().len() implies name.drop_last()[k]
                != SEPARATOR by {
                assert(name[k] != SEPARATOR);
            }
        }
        lemma_pieces_of_name(path, name.drop_last());
        assert(whole.drop_last() == path.push(SEPARATOR) + name.drop_last());
        let before = pieces(whole.drop_last());
        assert(before.drop_last() == pieces(path));
        assert(before.last().push(whole.last()) == name);
    }
}

proof fn lemma_names_read_back(names: Seq<Seq<u8>>)
    requires
        forall|i: int| 0 <= i < names.len() ==> is_name(#[trigger] names[i]),
    ensures
        resolved(pieces(rooted(names)), true) == (Resolved { absolute: true, names }),
        names.len() > 0 ==> is_absolute(rooted(names)),
    decreases names.len(),
{
    if names.len() == 0 {
        let none = seq![Seq::<u8>::empty()];
        assert(pieces(rooted(names)) == none);
        assert(none.drop_last() == Seq::<Seq<u8>>::empty());
        assert(resolved(none.drop_last(), true).names == names);
        assert(resolved(none, true).names == names);
    } else {
        let rest = names.drop_last();
        let name = names.last();
        assert forall|i: int| 0 <= i < rest.len() implies is_name(#[trigger] rest[i]) by {
            assert(rest[i] == names[i]);
        }
        lemma_names_read_back(rest);
        assert(is_name(names[names.len() - 1]));
        lemma_pieces_of_name(rooted(rest), name);
        let all = pieces(rooted(names));
        assert(all == pieces(rooted(rest)).push(name));
        assert(all.drop_last() == pieces(rooted(rest)));
        assert(rest.push(name) == names);
    }
}

/// A path from the root stays what it is, and holds neither empty pieces nor dots: all spellings of
/// a path that differ only in these are one.
pub proof fn law_absolute_paths_are_final(path: Seq<u8>, cwd: Option<Seq<u8>>, other: Option<Seq<u8>>)
    requires
        is_absolute(joined(path, cwd)),
    ensures
        ({
            let absolute = absolute_path(path, cwd);
            let names = resolved(pieces(joined(path, cwd)), true).names;
            &&& is_absolute(absolute)
            &&& absolute_path(absolute, other) == absolute
            &&& forall|i: int| 0 <= i < names.len() ==> is_name(#[trigger] names[i])
        }),
{
    let whole = joined(path, cwd);
    lemma_pieces(whole);
    lemma_resolved_names(pieces(whole), true);
    let place = resolved(pieces(whole), true);
    lemma_names_read_back(place.names);
    if place.names.len() == 0 {
        let root = seq![SEPARATOR];
        let two = seq![Seq::<u8>::empty(), Seq::<u8>::empty()];
        assert(root.drop_last() == Seq::<u8>::empty());
        assert(pieces(root.drop_last()) == seq![Seq::<u8>::empty()]);
        assert(pieces(root) == two);
        assert(two.drop_last() == seq![Seq::<u8>::empty()]);
        assert(two.drop_last().drop_last() == Seq::<Seq<u8>>::empty());
        assert(resolved(two.drop_last().drop_last(), true).names.len() == 0);
        assert(resolved(two.drop_last(), true).names.len() == 0);
        assert(resolved(two, true).names.len() == 0);
    }
}

proof fn lemma_different_bytes(first: Seq<char>, second: Seq<char>)
    requires
        encode_utf8(first) == encode_utf8(second),
    ensures
        first == second,
{
    vstd::utf8::encode_utf8_decode_utf8(first);
    vstd::utf8::encode_utf8_decode_utf8(second);
}

/// The two daemons of one configuration share neither a socket nor a file.
pub proof fn law_daemons_do_not_share(
    terminal: RenderPaths,
    structured: RenderPaths,
    config: Seq<u8>,
    uid: u32,
)
    requires
        are_paths(terminal, "render"@, config, uid),
        are_paths(structured, "structured-render"@, config, uid),
    ensures
        terminal.socket_path@ != structured.socket_path@,
        terminal.token_path@ != structured.token_path@,
        terminal.pid_path@ != structured.pid_path@,
        terminal.meta_path@ != structured.meta_path@,
{
    reveal_strlit("render");
    reveal_strlit("structured-render");
    reveal_strlit("/tmp/wand-");
    reveal_strlit(".");
    let suffix = suffix_of(config);
    let dir = directory(config);
    let one = socket_text("render"@, uid, suffix);
    let two = socket_text("structured-render"@, uid, suffix);
    assert(one[10] == 'r');
    assert(two[10] == 's');
    if encode_utf8(one) == encode_utf8(two) {
        lemma_different_bytes(one, two);
    }
    lemma_files_differ(dir, suffix, ".token"@);
    lemma_files_differ(dir, suffix, ".pid"@);
    lemma_files_differ(dir, suffix, ".json"@);
}

proof fn lemma_files_differ(dir: Seq<u8>, suffix: Seq<char>, extension: Seq<char>)
    ensures
        file_in(dir, encode_utf8(file_text("render"@, suffix, extension))) != file_in(
            dir,
            encode_utf8(file_text("structured-render"@, suffix, extension)),
        ),
{
    reveal_strlit("render");
    reveal_strlit("structured-render");
    reveal_strlit(".");
    let one = file_text("render"@, suffix, extension);
    let two = file_text("structured-render"@, suffix, extension);
    assert(one[1] == 'r');
    assert(two[1] == 's');
    let start = if dir.len() > 0 && dir.last() == SEPARATOR {
        dir
    } else {
        dir.push(SEPARATOR)
    };
    if start + encode_utf8(one) == start + encode_utf8(two) {
        assert((start + encode_utf8(one)).skip(start.len() as int) == encode_utf8(one));
        assert((start + encode_utf8(two)).skip(start.len() as int) == encode_utf8(two));
        lemma_different_bytes(one, two);
    }
}

/// What stands before the last separator of a path is its directory, and the root where nothing
/// does.
pub proof fn law_directory_stands_before_the_name(dir: Seq<u8>, name: Seq<u8>)
    requires
        forall|i: int| 0 <= i < name.len() ==> #[trigger] name[i] != 0x2f,
    ensures
        directory(dir.push(0x2f) + name) == (if dir.len() == 0 {
            seq![0x2fu8]
        } else {
            dir
        }),
    decreases name.len(),
{
    let path = dir.push(0x2f) + name;
    if name.len() == 0 {
        assert(path == dir.push(0x2f));
        assert(path.drop_last() == dir);
    } else {
        assert(name[name.len() - 1] != 0x2f);
        assert(path.drop_last() == dir.push(0x2f) + name.drop_last());
        law_directory_stands_before_the_name(dir, name.drop_last());
    }
}

proof fn lemma_rooted_ends_with_a_name(names: Seq<Seq<u8>>)
    requires
        names.len() > 0,
        is_name(names.last()),
    ensures
        rooted(names).len() > 0,
        rooted(names).last() != SEPARATOR,
{
    let name = names.last();
    assert(!name.contains(SEPARATOR));
    assert(rooted(names).last() == name[name.len() - 1]);
    assert(name.contains(name[name.len() - 1]));
}

/// A path is followed name by name: nothing and `.` lead nowhere, `..` leads to the directory, which
/// for the root is the root, and any other name leads to what has that name there.
pub proof fn law_paths_are_followed_name_by_name(
    path: Seq<u8>,
    name: Seq<u8>,
    cwd: Option<Seq<u8>>,
)
    requires
        path.len() == 0 || path[0] == 0x2f,
        forall|i: int| 0 <= i < name.len() ==> #[trigger] name[i] != 0x2f,
    ensures
        ({
            let root = seq![0x2fu8];
            let here = if path.len() == 0 {
                root
            } else {
                absolute_path(path, cwd)
            };
            absolute_path(path.push(0x2f) + name, cwd) == (if name.len() == 0 || name
                == seq![0x2eu8] {
                here
            } else if name == seq![0x2eu8, 0x2eu8] {
                directory(here)
            } else if here == root {
                root + name
            } else {
                here.push(0x2f) + name
            })
        }),
{
    let whole = path.push(0x2f) + name;
    assert(!name.contains(SEPARATOR));
    lemma_pieces_of_name(path, name);
    lemma_pieces(path);
    lemma_resolved_names(pieces(path), true);
    assert(pieces(whole).drop_last() == pieces(path));
    assert(whole[0] == 0x2f);
    let place = resolved(pieces(path), true);
    let names = place.names;
    if path.len() == 0 {
        assert(pieces(path).drop_last() == Seq::<Seq<u8>>::empty());
        assert(resolved(pieces(path).drop_last(), true).names.len() == 0);
        assert(names.len() == 0);
    }
    let here = if path.len() == 0 {
        seq![0x2fu8]
    } else {
        absolute_path(path, cwd)
    };
    assert(here == path_of(place));
    if names.len() > 0 {
        assert(is_name(names[names.len() - 1]));
        lemma_rooted_ends_with_a_name(names);
        assert(rooted(names)[0] == SEPARATOR) by {
            lemma_names_read_back(names);
        }
        assert(rooted(names).len() > 1) by {
            assert(names.last().len() > 0);
        }
    }
    if name.len() == 0 || name == seq![DOT] {
    } else if name == seq![DOT, DOT] {
        if names.len() == 0 {
            assert(directory(seq![0x2fu8]) == seq![0x2fu8]);
        } else {
            let last = names.last();
            assert forall|i: int| 0 <= i < last.len() implies #[trigger] last[i] != 0x2f by {
                assert(!last.contains(SEPARATOR));
                assert(last.contains(last[i]));
            }
            law_directory_stands_before_the_name(rooted(names.drop_last()), last);
            if names.len() > 1 {
                assert(rooted(names.drop_last()).len() > 0);
            }
        }
    } else {
        assert(names.push(name).drop_last() == names);
        if names.len() == 0 {
            assert(rooted(names) == Seq::<u8>::empty());
            assert(rooted(names.push(name)) == rooted(names).push(SEPARATOR) + name);
            assert(rooted(names.push(name)) == seq![0x2fu8] + name);
        }
    }
}

/// Where there is no working directory, what lies above a path that does not start at the root is
/// the root.
pub proof fn law_above_a_relative_path_is_the_root(name: Seq<u8>)
    requires
        name.len() > 0,
        name != seq![0x2eu8] && name != seq![0x2eu8, 0x2eu8],
        forall|i: int| 0 <= i < name.len() ==> #[trigger] name[i] != 0x2f,
    ensures
        absolute_path(seq![0x2eu8, 0x2eu8, 0x2fu8] + name, None) == seq![0x2fu8] + name,
        absolute_path(name, None) == name,
{
    assert(!name.contains(SEPARATOR));
    let up = seq![DOT, DOT];
    let whole = seq![0x2eu8, 0x2eu8, 0x2fu8] + name;
    let none = Seq::<Seq<u8>>::empty();
    lemma_pieces_of_name(up, name);
    assert(up.push(SEPARATOR) + name == whole);
    lemma_one_piece(up);
    assert(seq![up].drop_last() == none);
    assert(resolved(none, false).names.len() == 0);
    assert(resolved(seq![up], false) == Resolved { absolute: true, names: none });
    assert(pieces(whole).drop_last() == seq![up]);
    assert(none.push(name).drop_last() == none);
    assert(rooted(none) == Seq::<u8>::empty());
    assert(rooted(none.push(name)) == seq![0x2fu8] + name);
    assert(whole[0] == DOT);
    lemma_one_piece(name);
    assert(seq![name].drop_last() == none);
    assert(resolved(seq![name], false) == Resolved { absolute: false, names: none.push(name) });
    assert((seq![0x2fu8] + name).skip(1) == name);
}

proof fn lemma_one_piece(name: Seq<u8>)
    requires
        !name.contains(SEPARATOR),
    ensures
        pieces(name) == seq![name],
    decreases name.len(),
{
    if name.len() > 0 {
        let shorter = name.drop_last();
        assert(name[name.len() - 1] != SEPARATOR);
        assert(!shorter.contains(SEPARATOR)) by {
            if shorter.contains(SEPARATOR) {
                let i = choose|i: int| 0 <= i < shorter.len() && shorter[i] == SEPARATOR;
                assert(name[i] == SEPARATOR);
            }
        }
        lemma_one_piece(shorter);
        assert(shorter.push(name.last()) == name);
        assert(seq![shorter].drop_last().push(name) == seq![name]);
    } else {
        assert(name == Seq::<u8>::empty());
    }
}

/// A path that does not start at the root is seen from the working directory.
pub proof fn law_relative_paths_start_at_the_working_directory(path: Seq<u8>, cwd: Seq<u8>)
    requires
        path.len() == 0 || path[0] != 0x2f,
        cwd.len() > 0 && cwd[0] == 0x2f,
    ensures
        absolute_path(path, Some(cwd)) == absolute_path(cwd.push(0x2f) + path, None),
        absolute_path(seq![0x2fu8], None) == seq![0x2fu8],
{
    assert((cwd.push(0x2f) + path)[0] == 0x2f);
    law_paths_are_followed_name_by_name(Seq::empty(), Seq::empty(), None);
    assert(Seq::<u8>::empty().push(0x2f) + Seq::<u8>::empty() == seq![0x2fu8]);
}

/// A daemon's socket is named by the user and by the first twelve hexadecimal digits of the SHA-256
/// digest of the path of its configuration, and its files lie next to the configuration. The path is
/// the one that the system gives, following links, where there is one.
pub proof fn law_paths_are_named_by_user_and_configuration(
    paths: RenderPaths,
    structured: RenderPaths,
    config: Seq<u8>,
    uid: u32,
)
    requires
        are_paths(paths, "render"@, config, uid),
        are_paths(structured, "structured-render"@, config, uid),
    ensures
        ({
            let suffix = hex(sha256_digest(config).subrange(0, 6));
            let dir = directory(config);
            let beside = |name: Seq<char>|
                if dir.last() == 0x2f {
                    dir + encode_utf8(name)
                } else {
                    dir.push(0x2f) + encode_utf8(name)
                };
            &&& paths.socket_path@ == encode_utf8(
                "/tmp/wand-render-"@ + decimal(uid as nat) + "-"@ + suffix + ".sock"@,
            )
            &&& paths.token_path@ == beside(".render-"@ + suffix + ".token"@)
            &&& paths.pid_path@ == beside(".render-"@ + suffix + ".pid"@)
            &&& paths.meta_path@ == beside(".render-"@ + suffix + ".json"@)
            &&& structured.socket_path@ == encode_utf8(
                "/tmp/wand-structured-render-"@ + decimal(uid as nat) + "-"@ + suffix + ".sock"@,
            )
            &&& structured.token_path@ == beside(".structured-render-"@ + suffix + ".token"@)
            &&& structured.pid_path@ == beside(".structured-render-"@ + suffix + ".pid"@)
            &&& structured.meta_path@ == beside(".structured-render-"@ + suffix + ".json"@)
        }),
        forall|path: Seq<u8>, cwd: Option<Seq<u8>>, canonical: Seq<u8>|
            #[trigger] config_path_of(path, cwd, Some(canonical)) == canonical,
        forall|path: Seq<u8>, cwd: Option<Seq<u8>>| #[trigger]
            config_path_of(path, cwd, None) == absolute_path(path, cwd),
{
    reveal_strlit("/tmp/wand-");
    reveal_strlit("render");
    reveal_strlit("structured-render");
    reveal_strlit("-");
    reveal_strlit(".");
    reveal_strlit("/tmp/wand-render-");
    reveal_strlit("/tmp/wand-structured-render-");
    reveal_strlit(".render-");
    reveal_strlit(".structured-render-");
    assert("/tmp/wand-"@ + "render"@ + "-"@ == "/tmp/wand-render-"@);
    assert("/tmp/wand-"@ + "structured-render"@ + "-"@ == "/tmp/wand-structured-render-"@);
    assert("."@ + "render"@ + "-"@ == ".render-"@);
    assert("."@ + "structured-render"@ + "-"@ == ".structured-render-"@);
    assert(sha256_digest(config).take(6) == sha256_digest(config).subrange(0, 6));
    lemma_directory_is_not_empty(config);
}

proof fn lemma_directory_is_not_empty(path: Seq<u8>)
    ensures
        directory(path).len() > 0,
    decreases path.len(),
{
    if path.len() > 0 && path.last() != SEPARATOR {
        lemma_directory_is_not_empty(path.drop_last());
    }
}

} // verus!
