//! File names, extensions and directories of paths. `/` stands between
//! components, and `\` too where the platform has it so.

use vstd::prelude::*;
use vstd::slice::slice_subrange;
use crate::text;

verus! {

/// Whether a component stands for the directory it is in.
pub open spec fn is_void(component: Seq<char>) -> bool {
    component.len() == 0 || component == seq!['.']
}

/// The last component that names something, if any.
pub open spec fn last_named(components: Seq<Seq<char>>) -> Option<Seq<char>>
    decreases components.len(),
{
    if components.len() == 0 {
        None
    } else if is_void(components.last()) {
        last_named(components.drop_last())
    } else if components.last() == seq!['.', '.'] {
        None
    } else {
        Some(components.last())
    }
}

/// The file name of a path, if it has one.
pub open spec fn file_name(path: Seq<char>) -> Option<Seq<char>> {
    last_named(text::split(path, '/'))
}

/// Position of the last dot, or -1.
pub open spec fn last_dot(name: Seq<char>) -> int
    decreases name.len(),
{
    if name.len() == 0 {
        -1
    } else if name.last() == '.' {
        name.len() - 1
    } else {
        last_dot(name.drop_last())
    }
}

/// What stands behind the last dot of a path's file name; a dot at the start of
/// the name does not count. A `\` is taken as part of the name.
pub open spec fn extension(path: Seq<char>) -> Option<Seq<char>> {
    match file_name(path) {
        Some(name) => if last_dot(name) > 0 {
            Some(name.skip(last_dot(name) + 1))
        } else {
            None
        },
        None => None,
    }
}

/// Whether a path has the given extension, in any case.
pub open spec fn has_extension(path: Seq<char>, wanted: Seq<char>) -> bool {
    extension(path) matches Some(e) && text::same_ignoring_case(e, wanted)
}

/// Whether a component stands for the directory it is in.
fn void(component: &[char]) -> (r: bool)
    ensures
        r == is_void(component@),
{
    let r = component.len() == 0 || (component.len() == 1 && component[0] == '.');
    proof {
        if component@.len() == 1 && component@[0] == '.' {
            assert(component@ =~= seq!['.']);
        }
    }
    r
}

/// The file name of a path, if it has one.
fn name_in<'a>(path: &'a [char]) -> (r: Option<&'a [char]>)
    ensures
        match file_name(path@) {
            Some(n) => r matches Some(v) && v@ == n,
            None => r is None,
        },
{
    let parts = text::pieces(path, '/');
    let ghost all = text::slices(parts@);
    let mut n: usize = parts.len();
    assert(all.take(n as int) =~= all);
    while n > 0
        invariant
            n <= parts.len(),
            all == text::slices(parts@),
            file_name(path@) == last_named(all.take(n as int)),
        decreases n,
    {
        let part = parts[n - 1];
        proof {
            assert(all.take(n as int).last() == part@);
            assert(all.take(n as int).drop_last() =~= all.take(n - 1));
        }
        if !void(part) {
            let up = part.len() == 2 && part[0] == '.' && part[1] == '.';
            proof {
                if up {
                    assert(part@ =~= seq!['.', '.']);
                }
            }
            return if up {
                None
            } else {
                Some(part)
            };
        }
        n -= 1;
    }
    None
}

/// A path with `/` between its components, where `back` tells whether `\` stands
/// there too.
pub open spec fn slashed(path: Seq<char>, back: bool) -> Seq<char> {
    if back {
        path.map_values(
            |c: char|
                if c == '\\' {
                    '/'
                } else {
                    c
                },
        )
    } else {
        path
    }
}

/// How a file is called: by the file name of its path, or the path if it has
/// none.
pub open spec fn label(path: Seq<char>, back: bool) -> Seq<char> {
    match file_name(slashed(path, back)) {
        Some(n) => n,
        None => path,
    }
}

/// Whether a file is called so on some platform.
pub open spec fn is_label(path: Seq<char>, text: Seq<char>) -> bool {
    exists|back: bool| text == #[trigger] label(path, back)
}

/// `std::path::is_separator`: whether a character separates the components of a
/// path on the platform at hand. `/` does on every platform; of other characters
/// nothing is claimed.
#[verifier::external_body]
fn separates(c: char) -> (r: bool)
    ensures
        c == '/' ==> r,
{
    std::path::is_separator(c)
}

/// A path with `/` between its components.
fn with_slashes(path: &[char], back: bool) -> (r: Vec<char>)
    ensures
        r@ == slashed(path@, back),
{
    let mut r: Vec<char> = Vec::new();
    let mut i: usize = 0;
    while i < path.len()
        invariant
            i <= path.len(),
            r@ =~= slashed(path@, back).take(i as int),
        decreases path.len() - i,
    {
        if back && path[i] == '\\' {
            r.push('/');
        } else {
            r.push(path[i]);
        }
        i += 1;
    }
    assert(r@ =~= slashed(path@, back));
    r
}

/// A path without `\` is the same whether that separates components or not.
proof fn lemma_slashed(path: Seq<char>, back: bool)
    requires
        !path.contains('\\'),
    ensures
        slashed(path, back) == path,
{
    assert(slashed(path, back) =~= path);
}

/// How a file is called, where `back` tells whether `\` separates components.
pub fn label_in(path: &str, back: bool) -> (r: String)
    ensures
        r@ == label(path@, back),
{
    let chars = with_slashes(&text::chars_of(path), back);
    match name_in(&chars) {
        Some(n) => text::string_of(n),
        None => path.to_string(),
    }
}

/// How a file is called on the platform at hand.
pub fn label_of(path: &str) -> (r: String)
    ensures
        is_label(path@, r@),
        !path@.contains('\\') ==> r@ == label(path@, false),
{
    let back = separates('\\');
    proof {
        if !path@.contains('\\') {
            lemma_slashed(path@, back);
        }
    }
    label_in(path, back)
}

/// A path without separators and `.` components at its end.
pub open spec fn bare(path: Seq<char>) -> Seq<char>
    decreases path.len(),
{
    let n = path.len();
    if n >= 2 && (path[n - 1] == '/' || (path[n - 1] == '.' && path[n - 2] == '/')) {
        bare(path.drop_last())
    } else {
        path
    }
}

/// The number of characters up to the last `/`, with it.
pub open spec fn behind_slash(path: Seq<char>) -> int
    decreases path.len(),
{
    if path.len() == 0 || path.last() == '/' {
        path.len() as int
    } else {
        behind_slash(path.drop_last())
    }
}

/// The directory that a path is in; the root and the empty path are in none.
pub open spec fn parent(path: Seq<char>) -> Option<Seq<char>> {
    let b = bare(path);
    if b.len() == 0 || b == seq!['/'] {
        None
    } else {
        Some(bare(b.take(behind_slash(b))))
    }
}

/// A relative path, taken from a directory.
pub open spec fn inside(dir: Seq<char>, path: Seq<char>) -> Seq<char> {
    if dir.len() == 0 || dir.last() == '/' {
        dir + path
    } else {
        dir + seq!['/'] + path
    }
}

/// Whether a path does not depend on a directory: it starts with a separator, or
/// with a drive where `\` separates components.
pub open spec fn is_absolute(path: Seq<char>, back: bool) -> bool {
    ||| path.len() > 0 && slashed(path, back)[0] == '/'
    ||| back && path.len() > 1 && path[1] == ':'
}

/// The path of a log that a session file names, relative to the session file
/// when it is not absolute.
pub open spec fn resolved_path(session_path: Seq<char>, log: Seq<char>, back: bool) -> Seq<char> {
    if is_absolute(log, back) {
        log
    } else {
        match parent(slashed(session_path, back)) {
            Some(dir) => inside(dir, log),
            None => log,
        }
    }
}

/// Whether a log's path is resolved so on some platform.
pub open spec fn is_resolved(session_path: Seq<char>, log: Seq<char>, text: Seq<char>) -> bool {
    exists|back: bool| text == #[trigger] resolved_path(session_path, log, back)
}

/// A path without separators and `.` components at its end.
fn trim_end<'a>(path: &'a [char]) -> (r: &'a [char])
    ensures
        r@ == bare(path@),
{
    let mut n: usize = path.len();
    assert(path@.take(n as int) =~= path@);
    while n >= 2 && (path[n - 1] == '/' || (path[n - 1] == '.' && path[n - 2] == '/'))
        invariant
            n <= path.len(),
            bare(path@) == bare(path@.take(n as int)),
        decreases n,
    {
        assert(path@.take(n as int).drop_last() =~= path@.take(n - 1));
        n -= 1;
    }
    let r = slice_subrange(path, 0, n);
    assert(r@ =~= path@.take(n as int));
    r
}

/// The directory that a path is in.
fn parent_of<'a>(path: &'a [char]) -> (r: Option<&'a [char]>)
    ensures
        match parent(path@) {
            Some(d) => r matches Some(v) && v@ == d,
            None => r is None,
        },
{
    let b = trim_end(path);
    if b.len() == 0 {
        return None;
    }
    if b.len() == 1 && b[0] == '/' {
        assert(b@ =~= seq!['/']);
        return None;
    }
    assert(b@ != seq!['/']) by {
        if b@ == seq!['/'] {
            assert(b@[0] == '/');
        }
    }
    let mut n: usize = b.len();
    assert(b@.take(n as int) =~= b@);
    while n > 0 && b[n - 1] != '/'
        invariant
            n <= b.len(),
            behind_slash(b@) == behind_slash(b@.take(n as int)),
        decreases n,
    {
        assert(b@.take(n as int).drop_last() =~= b@.take(n - 1));
        n -= 1;
    }
    let dir = slice_subrange(b, 0, n);
    assert(dir@ =~= b@.take(behind_slash(b@)));
    Some(trim_end(dir))
}

/// The path of a log that a session file names, where `back` tells whether `\`
/// separates components.
pub fn resolved_in(session_path: &str, log: &str, back: bool) -> (r: String)
    ensures
        r@ == resolved_path(session_path@, log@, back),
{
    let chars = text::chars_of(log);
    if chars.len() > 0 && (chars[0] == '/' || (back && chars[0] == '\\')) {
        return log.to_string();
    }
    if back && chars.len() > 1 && chars[1] == ':' {
        return log.to_string();
    }
    let from = with_slashes(&text::chars_of(session_path), back);
    match parent_of(&from) {
        Some(dir) => {
            let mut r = text::string_of(dir);
            if dir.len() > 0 && dir[dir.len() - 1] != '/' {
                r.push('/');
            }
            r.append(log);
            assert(r@ =~= inside(dir@, log@));
            r
        },
        None => log.to_string(),
    }
}

/// The path of a log that a session file names, relative to the session file when
/// it is not absolute on the platform at hand.
pub fn resolved(session_path: &str, log: &str) -> (r: String)
    ensures
        is_resolved(session_path@, log@, r@),
        !session_path@.contains('\\') && !log@.contains('\\') && !log@.contains(':') ==> r@
            == resolved_path(session_path@, log@, false),
{
    let back = separates('\\');
    proof {
        if !session_path@.contains('\\') && !log@.contains('\\') && !log@.contains(':') {
            lemma_slashed(session_path@, back);
            lemma_slashed(log@, back);
            if log@.len() > 1 {
                assert(log@[1] != ':');
            }
        }
    }
    resolved_in(session_path, log, back)
}

/// An absolute path is resolved to itself, and one from a session file in the
/// working directory too.
pub proof fn law_resolving(session_path: Seq<char>, log: Seq<char>, back: bool)
    ensures
        is_absolute(log, back) ==> resolved_path(session_path, log, back) == log,
        parent(slashed(session_path, back)) == Some(Seq::<char>::empty()) ==> resolved_path(
            session_path,
            log,
            back,
        ) == log,
{
    assert(Seq::<char>::empty() + log =~= log);
}

/// Whether a path has the given extension, in any case.
pub fn extension_is(path: &str, wanted: &str) -> (r: bool)
    ensures
        r == has_extension(path@, wanted@),
{
    let chars = text::chars_of(path);
    let name = match name_in(&chars) {
        Some(n) => n,
        None => return false,
    };
    let mut n: usize = name.len();
    assert(name@.take(n as int) =~= name@);
    while n > 0 && name[n - 1] != '.'
        invariant
            n <= name.len(),
            last_dot(name@) == last_dot(name@.take(n as int)),
        decreases n,
    {
        assert(name@.take(n as int).drop_last() =~= name@.take(n - 1));
        n -= 1;
    }
    if n <= 1 {
        return false;
    }
    let rest = slice_subrange(name, n, name.len());
    assert(rest@ =~= name@.skip(last_dot(name@) + 1));
    let a = text::lowered(rest);
    let b = text::lowered(&text::chars_of(wanted));
    text::same(&a, &b)
}

/// The name of a file is what stands behind the last separator of its path, whatever
/// empty or `.` components follow; `..` is no name.
pub proof fn law_file_name(dir: Seq<char>, name: Seq<char>)
    requires
        name.len() > 0,
        !name.contains('/'),
        name != seq!['.'],
    ensures
        name != seq!['.', '.'] ==> file_name(name) == Some(name) && file_name(
            dir + seq!['/'] + name,
        ) == Some(name),
        name == seq!['.', '.'] ==> file_name(name) is None && file_name(dir + seq!['/'] + name)
            is None,
        file_name(dir + seq!['/']) == file_name(dir),
        file_name(dir + seq!['/', '.']) == file_name(dir),
{
    text::lemma_split_none(name, '/');
    assert(text::split(name, '/').last() == name);
    text::lemma_split_append(dir, '/', name);
    let parts = text::split(dir, '/');
    assert(parts.push(name).last() == name);
    let none: Seq<char> = seq![];
    text::lemma_split_append(dir, '/', none);
    assert(dir + seq!['/'] + none =~= dir + seq!['/']);
    assert(parts.push(none).last() == none);
    assert(parts.push(none).drop_last() =~= parts);
    let dot = seq!['.'];
    assert(!dot.contains('/')) by {
        if dot.contains('/') {
            let k = choose|k: int| 0 <= k < dot.len() && dot[k] == '/';
            assert(dot[k] == '.');
        }
    }
    text::lemma_split_append(dir, '/', dot);
    assert(dir + seq!['/'] + dot =~= dir + seq!['/', '.']);
    assert(parts.push(dot).last() == dot);
    assert(parts.push(dot).drop_last() =~= parts);
}

/// The extension of a file is what stands behind the last dot of its name. A name
/// without a dot has none, nor has one with no dot but at its start.
pub proof fn law_extension(dir: Seq<char>, stem: Seq<char>, ext: Seq<char>, wanted: Seq<char>)
    requires
        !stem.contains('/') && !ext.contains('/'),
        !ext.contains('.'),
        dir.len() > 0 ==> dir.last() == '/',
        stem + seq!['.'] + ext != seq!['.', '.'],
    ensures
        stem.len() > 0 ==> extension(dir + (stem + seq!['.'] + ext)) == Some(ext),
        stem.len() > 0 ==> (has_extension(dir + (stem + seq!['.'] + ext), wanted) <==> text::lower(
            ext,
        ) == text::lower(wanted)),
        ext.len() > 0 ==> extension(dir + (seq!['.'] + ext)) is None && extension(dir + ext) is None,
        ext.len() > 0 ==> !has_extension(dir + ext, wanted),
{
    let name = stem + seq!['.'] + ext;
    lemma_no_slash(stem, ext);
    let hidden = seq!['.'] + ext;
    let empty: Seq<char> = seq![];
    lemma_no_slash(empty, ext);
    assert(empty + seq!['.'] + ext =~= hidden);
    if stem.len() > 0 {
        assert(name != seq!['.']) by {
            if name == seq!['.'] {
                assert(name.len() == 1);
            }
        }
        lemma_named(dir, name);
        lemma_last_dot(stem, ext);
        assert(name.skip(stem.len() as int + 1) =~= ext);
    }
    if ext.len() > 0 {
        assert(hidden[1] == ext[0]);
        assert(ext.contains(ext[0]));
        assert(hidden != seq!['.']) by {
            assert(hidden.len() > 1);
        }
        assert(hidden != seq!['.', '.']) by {
            if hidden == seq!['.', '.'] {
                assert(hidden[1] == '.');
            }
        }
        lemma_named(dir, hidden);
        lemma_last_dot(empty, ext);
        assert(ext != seq!['.']) by {
            if ext == seq!['.'] {
                assert(ext[0] == '.');
            }
        }
        assert(ext != seq!['.', '.']) by {
            if ext == seq!['.', '.'] {
                assert(ext[0] == '.');
            }
        }
        lemma_named(dir, ext);
        lemma_no_dot(ext);
    }
}

/// A name with a dot holds no separator where its parts hold none.
proof fn lemma_no_slash(stem: Seq<char>, ext: Seq<char>)
    requires
        !stem.contains('/') && !ext.contains('/'),
    ensures
        !(stem + seq!['.'] + ext).contains('/'),
{
    let name = stem + seq!['.'] + ext;
    if name.contains('/') {
        let k = choose|k: int| 0 <= k < name.len() && name[k] == '/';
        let n = stem.len() as int;
        if k < n {
            assert(stem[k] == '/');
        } else if k > n {
            assert(ext[k - n - 1] == '/');
        }
    }
}

/// The name of a file in a directory that ends with a separator, or in none.
proof fn lemma_named(dir: Seq<char>, name: Seq<char>)
    requires
        name.len() > 0,
        !name.contains('/'),
        name != seq!['.'],
        name != seq!['.', '.'],
        dir.len() > 0 ==> dir.last() == '/',
    ensures
        file_name(dir + name) == Some(name),
{
    if dir.len() > 0 {
        law_file_name(dir.drop_last(), name);
        assert(dir.drop_last() + seq!['/'] + name =~= dir + name);
    } else {
        law_file_name(dir, name);
        assert(dir + name =~= name);
    }
}

/// Where the last dot of a name stands.
proof fn lemma_last_dot(stem: Seq<char>, ext: Seq<char>)
    requires
        !ext.contains('.'),
    ensures
        last_dot(stem + seq!['.'] + ext) == stem.len(),
    decreases ext.len(),
{
    let name = stem + seq!['.'] + ext;
    if ext.len() > 0 {
        assert(name.last() == ext.last());
        assert(ext.contains(ext.last()));
        let short = ext.drop_last();
        assert(!short.contains('.')) by {
            if short.contains('.') {
                let k = choose|k: int| 0 <= k < short.len() && short[k] == '.';
                assert(ext[k] == '.');
            }
        }
        lemma_last_dot(stem, short);
        assert(name.drop_last() =~= stem + seq!['.'] + short);
    } else {
        assert(name.last() == '.');
    }
}

/// A name without a dot has no last one.
proof fn lemma_no_dot(name: Seq<char>)
    requires
        !name.contains('.'),
    ensures
        last_dot(name) == -1,
    decreases name.len(),
{
    if name.len() > 0 {
        assert(name.contains(name.last()));
        let short = name.drop_last();
        assert(!short.contains('.')) by {
            if short.contains('.') {
                let k = choose|k: int| 0 <= k < short.len() && short[k] == '.';
                assert(name[k] == '.');
            }
        }
        lemma_no_dot(short);
    }
}

/// Where `\` separates components it is taken for `/`, else it is left alone.
pub proof fn law_slashed(path: Seq<char>, i: int)
    ensures
        slashed(path, false) == path,
        slashed(path, true).len() == path.len(),
        0 <= i < path.len() ==> {
            &&& path[i] == '\\' ==> slashed(path, true)[i] == '/'
            &&& path[i] != '\\' ==> slashed(path, true)[i] == path[i]
        },
{
}

/// A log that a session file names without a directory of its own is next to the
/// session file; one that starts with a separator is where it says.
pub proof fn law_logs_are_next_to_session(dir: Seq<char>, name: Seq<char>, log: Seq<char>)
    requires
        name.len() > 0,
        !name.contains('/'),
        name != seq!['.'],
        dir.len() > 0 ==> dir.last() != '/' && (dir.len() >= 2 ==> !(dir.last() == '.' && dir[dir.len()
            - 2] == '/')),
        log.len() > 0,
    ensures
        log[0] == '/' ==> resolved_path(dir + seq!['/'] + name, log, false) == log
            && resolved_path(name, log, false) == log,
        log[0] != '/' ==> resolved_path(name, log, false) == log,
        log[0] != '/' && dir.len() > 0 ==> resolved_path(dir + seq!['/'] + name, log, false) == dir
            + seq!['/'] + log,
{
    let path = dir + seq!['/'] + name;
    lemma_bare_name(seq![], name);
    assert(Seq::<char>::empty() + name =~= name);
    let none: Seq<char> = seq![];
    lemma_behind_slash(none, name);
    assert(name != seq!['/']) by {
        if name == seq!['/'] {
            assert(name[0] == '/');
            assert(name.contains('/'));
        }
    }
    assert(name.take(0) =~= none);
    assert(bare(none) == none);
    assert(none + log =~= log);
    if dir.len() > 0 {
        let lead = dir + seq!['/'];
        lemma_bare_name(lead, name);
        lemma_behind_slash(lead, name);
        assert(path =~= lead + name);
        assert(path.take(lead.len() as int) =~= lead);
        assert(lead.drop_last() =~= dir);
        assert(bare(lead) == bare(dir));
        assert(bare(dir) == dir);
        assert(path != seq!['/']) by {
            assert(path.len() > 1);
        }
    }
}

/// A path that ends with a name is bare.
proof fn lemma_bare_name(lead: Seq<char>, name: Seq<char>)
    requires
        name.len() > 0,
        !name.contains('/'),
        name != seq!['.'],
        lead.len() > 0 ==> lead.last() == '/',
    ensures
        bare(lead + name) == lead + name,
{
    let path = lead + name;
    let n = path.len() as int;
    assert(path[n - 1] == name.last());
    assert(name.contains(name.last()));
    if n >= 2 && path[n - 1] == '.' && path[n - 2] == '/' {
        if name.len() >= 2 {
            assert(path[n - 2] == name[name.len() - 2]);
            assert(name.contains(name[name.len() - 2]));
        } else {
            assert(name =~= seq!['.']);
        }
    }
}

/// What stands up to the last separator.
proof fn lemma_behind_slash(lead: Seq<char>, name: Seq<char>)
    requires
        !name.contains('/'),
        lead.len() > 0 ==> lead.last() == '/',
    ensures
        behind_slash(lead + name) == lead.len(),
    decreases name.len(),
{
    let path = lead + name;
    if name.len() > 0 {
        assert(path.last() == name.last());
        assert(name.contains(name.last()));
        let short = name.drop_last();
        assert(!short.contains('/')) by {
            if short.contains('/') {
                let k = choose|k: int| 0 <= k < short.len() && short[k] == '/';
                assert(name[k] == '/');
            }
        }
        lemma_behind_slash(lead, short);
        assert(path.drop_last() =~= lead + short);
    } else {
        assert(path =~= lead);
    }
}

/// A file is called by its name on every platform where its path holds no `\`, and a
/// log is resolved in the same way on every platform where neither path holds one or
/// names a drive.
pub proof fn law_same_on_every_platform(
    path: Seq<char>,
    shown: Seq<char>,
    log: Seq<char>,
    found: Seq<char>,
)
    requires
        !path.contains('\\'),
        !log.contains('\\'),
        log.len() > 1 ==> log[1] != ':',
    ensures
        is_label(path, shown) ==> (file_name(path) matches Some(n) ==> shown == n) && (file_name(
            path,
        ) is None ==> shown == path),
        is_resolved(path, log, found) ==> found == resolved_path(path, log, false),
{
    assert(slashed(path, true) =~= path) by {
        assert forall|i: int| 0 <= i < path.len() implies slashed(path, true)[i] == path[i] by {
            assert(path.contains(path[i]));
        }
    }
    assert(slashed(log, true) =~= log) by {
        assert forall|i: int| 0 <= i < log.len() implies slashed(log, true)[i] == log[i] by {
            assert(log.contains(log[i]));
        }
    }
    if is_label(path, shown) {
        let back = choose|back: bool| shown == #[trigger] label(path, back);
        assert(slashed(path, back) == path);
    }
    if is_resolved(path, log, found) {
        let back = choose|back: bool| found == #[trigger] resolved_path(path, log, back);
        assert(slashed(path, back) == path);
        assert(slashed(log, back) == log);
        assert(is_absolute(log, back) == is_absolute(log, false));
    }
}

} // verus!
