//! File names in paths, as they are written on Windows.

use vstd::prelude::*;

use crate::text;

verus! {

/// Whether a character parts the components of a path.
pub open spec fn is_separator(c: char) -> bool {
    c == '/' || c == '\\'
}

/// Where the last component of a path begins: behind its last separator.
pub open spec fn last_start(path: Seq<char>) -> int
    decreases path.len(),
{
    if path.len() == 0 || is_separator(path.last()) {
        path.len() as int
    } else {
        last_start(path.drop_last())
    }
}

/// A path begins with the letter of a drive.
pub open spec fn has_drive(path: Seq<char>) -> bool {
    path.len() >= 2 && path[1] == ':' && ('a' <= path[0] <= 'z' || 'A' <= path[0] <= 'Z')
}

/// Where the first separator stands at or behind a place; the length of the path where
/// none does.
pub open spec fn next_separator(path: Seq<char>, from: int) -> int
    decreases path.len() - from,
{
    if from >= path.len() || is_separator(path[from]) {
        from
    } else {
        next_separator(path, from + 1)
    }
}

/// How long the name of a server and of what it shares is, where a path begins with
/// them: two separators, the server, a separator, and the share.
pub open spec fn share_length(path: Seq<char>) -> int {
    if path.len() >= 2 && is_separator(path[0]) && is_separator(path[1]) {
        let server = next_separator(path, 2);
        if 2 < server < path.len() {
            let share = next_separator(path, server + 1);
            if server + 1 < share <= path.len() {
                share
            } else {
                0
            }
        } else {
            0
        }
    } else {
        0
    }
}

/// A path without the letter of its drive, or the name of its server and share.
pub open spec fn without_prefix(path: Seq<char>) -> Seq<char> {
    if has_drive(path) {
        path.skip(2)
    } else {
        path.skip(share_length(path))
    }
}

/// The final component of a path, which neither the letter of a drive nor the name of a
/// server and its share is.
pub open spec fn file_name(path: Seq<char>) -> Option<Seq<char>> {
    final_component(without_prefix(path))
}

/// The final component of a path without a prefix: separators behind it do not count, nor
/// does a component `.`; there is none where the path ends in `..`.
pub open spec fn final_component(path: Seq<char>) -> Option<Seq<char>>
    decreases path.len(),
{
    if path.len() == 0 {
        None
    } else if is_separator(path.last()) {
        final_component(path.drop_last())
    } else {
        let at = last_start(path);
        let name = path.skip(at);
        if name == ".."@ {
            None
        } else if name == "."@ {
            if 0 < at < path.len() {
                final_component(path.take(at))
            } else {
                None
            }
        } else {
            Some(name)
        }
    }
}

/// The final component of a path, or the whole path where there is none.
pub open spec fn shown_name(path: Seq<char>) -> Seq<char> {
    match file_name(path) {
        Some(name) => name,
        None => path,
    }
}

/// A component begins inside its path.
proof fn lemma_last_start(path: Seq<char>)
    ensures
        0 <= last_start(path) <= path.len(),
        path.len() > 0 && !is_separator(path.last()) ==> last_start(path) < path.len(),
        forall|i: int| last_start(path) <= i < path.len() ==> !is_separator(#[trigger] path[i]),
    decreases path.len(),
{
    if path.len() == 0 || is_separator(path.last()) {
    } else {
        lemma_last_start(path.drop_last());
        assert forall|i: int| last_start(path) <= i < path.len() implies !is_separator(
            #[trigger] path[i],
        ) by {
            if i < path.len() - 1 {
                assert(path.drop_last()[i] == path[i]);
            }
        }
    }
}

/// Whether a character parts the components of a path.
fn char_is_separator(c: char) -> (r: bool)
    ensures
        r == is_separator(c),
{
    c == '/' || c == '\\'
}

/// Where the first separator stands at or behind a place.
fn find_separator(chars: &Vec<char>, from: usize) -> (r: usize)
    requires
        from <= chars@.len(),
    ensures
        r == next_separator(chars@, from as int),
        from <= r <= chars@.len(),
{
    let mut i: usize = from;
    while i < chars.len() && !char_is_separator(chars[i])
        invariant
            from <= i <= chars@.len(),
            next_separator(chars@, i as int) == next_separator(chars@, from as int),
        decreases chars@.len() - i,
    {
        i = i + 1;
    }
    i
}

/// How long the name of a server and of what it shares is.
fn find_share_end(chars: &Vec<char>) -> (r: usize)
    ensures
        r == share_length(chars@),
        r <= chars@.len(),
{
    if chars.len() < 2 || !char_is_separator(chars[0]) || !char_is_separator(chars[1]) {
        return 0;
    }
    let server: usize = find_separator(chars, 2);
    if server == 2 || server >= chars.len() {
        return 0;
    }
    let share: usize = find_separator(chars, server + 1);
    if share == server + 1 {
        return 0;
    }
    share
}

/// The final component of a path, where it has one.
pub fn find_file_name(path: &str) -> (r: Option<String>)
    ensures
        match r {
            Some(name) => file_name(path@) == Some(name@),
            None => file_name(path@) is None,
        },
{
    let mut chars: Vec<char> = text::chars_of(path);
    let prefix: usize = if chars.len() >= 2 && chars[1] == ':' && (('a' <= chars[0] && chars[0]
        <= 'z') || ('A' <= chars[0] && chars[0] <= 'Z')) {
        2
    } else {
        find_share_end(&chars)
    };
    chars = chars.split_off(prefix);
    assert(chars@ =~= without_prefix(path@));
    let mut end: usize = chars.len();
    assert(chars@.take(chars@.len() as int) =~= chars@);
    while end > 0
        invariant
            end <= chars@.len(),
            final_component(chars@.take(end as int)) == file_name(path@),
        decreases end,
    {
        let ghost part = chars@.take(end as int);
        assert(part.drop_last() =~= chars@.take(end - 1));
        if char_is_separator(chars[end - 1]) {
            end = end - 1;
        } else {
            let mut at: usize = end;
            proof {
                lemma_last_start(part);
                assert(chars@.take(at as int) =~= part);
            }
            while at > 0 && !char_is_separator(chars[at - 1])
                invariant
                    at <= end <= chars@.len(),
                    last_start(chars@.take(at as int)) == last_start(chars@.take(end as int)),
                decreases at,
            {
                assert(chars@.take(at as int).drop_last() =~= chars@.take(at - 1));
                at = at - 1;
            }
            assert(at == last_start(part));
            let name: String = text::string_of(&chars, at, end);
            assert(name@ =~= part.skip(at as int));
            if text::same_text(name.as_str(), "..") {
                return None;
            }
            if !text::same_text(name.as_str(), ".") {
                return Some(name);
            }
            if at == 0 {
                return None;
            }
            assert(part.take(at as int) =~= chars@.take(at as int));
            end = at;
        }
    }
    assert(chars@.take(0) =~= Seq::<char>::empty());
    None
}

/// The final component of a path, or the whole path where there is none.
pub fn name_to_show(path: &str) -> (r: String)
    ensures
        r@ == shown_name(path@),
{
    match find_file_name(path) {
        Some(name) => name,
        None => text::copy_str(path),
    }
}

// ── What a path is called ──

/// Behind a separator, a name without one is the final component.
proof fn lemma_final_component(dir: Seq<char>, sep: char, name: Seq<char>)
    requires
        is_separator(sep),
        name.len() > 0,
        forall|i: int| 0 <= i < name.len() ==> !is_separator(#[trigger] name[i]),
        name != "."@,
        name != ".."@,
    ensures
        final_component(dir.push(sep) + name) == Some(name),
        final_component(name) == Some(name),
{
    lemma_start_behind(dir.push(sep), name, name.len() as int);
    lemma_start_behind(Seq::empty(), name, name.len() as int);
    let path = dir.push(sep) + name;
    assert(name.take(name.len() as int) =~= name);
    assert(dir.push(sep) + name.take(name.len() as int) =~= path);
    assert(Seq::<char>::empty() + name =~= name);
    assert(path.last() == name[name.len() - 1]);
    assert(!is_separator(name[name.len() - 1]));
    assert(path.skip(dir.len() as int + 1) =~= name);
    assert(name.skip(0) =~= name);
}

/// A name begins where the separator before it ends.
proof fn lemma_start_behind(before: Seq<char>, name: Seq<char>, n: int)
    requires
        0 <= n <= name.len(),
        before.len() == 0 || is_separator(before.last()),
        forall|i: int| 0 <= i < name.len() ==> !is_separator(#[trigger] name[i]),
    ensures
        last_start(before + name.take(n)) == before.len(),
    decreases n,
{
    let path = before + name.take(n);
    if n == 0 {
        assert(path =~= before);
    } else {
        assert(path.last() == name[n - 1]);
        assert(path.drop_last() =~= before + name.take(n - 1));
        lemma_start_behind(before, name, n - 1);
    }
}

/// The file name of a path in a folder is what stands behind the last separator, whether
/// the path begins with a drive or not; a path without separators is its own name.
pub proof fn file_name_is_behind_the_last_separator(dir: Seq<char>, sep: char, name: Seq<char>)
    requires
        sep == '/' || sep == '\\',
        name.len() > 0,
        !name.contains('/'),
        !name.contains('\\'),
        name != "."@,
        name != ".."@,
        dir.len() > 0 ==> dir[0] != '/' && dir[0] != '\\',
    ensures
        file_name(dir.push(sep) + name) == Some(name),
        shown_name(dir.push(sep) + name) == name,
        name.len() < 2 || name[1] != ':' ==> file_name(name) == Some(name) && shown_name(name)
            == name,
{
    assert forall|i: int| 0 <= i < name.len() implies !is_separator(#[trigger] name[i]) by {
        assert(name.contains(name[i]));
    }
    let path = dir.push(sep) + name;
    lemma_final_component(dir, sep, name);
    assert(!is_separator(name[0]));
    assert(path.skip(0) =~= path);
    assert(name.skip(0) =~= name);
    if dir.len() == 0 {
        assert(path[0] == sep);
        assert(path[1] == name[0]);
        assert(share_length(path) == 0);
    } else {
        assert(path[0] == dir[0]);
        if dir.len() == 1 {
            assert(path[1] == sep);
        } else if has_drive(path) {
            let rest = dir.skip(2);
            lemma_final_component(rest, sep, name);
            assert(path.skip(2) =~= rest.push(sep) + name);
        }
    }
}

/// The first separator behind a run without one is where the run ends.
proof fn lemma_next_separator(path: Seq<char>, from: int, to: int)
    requires
        0 <= from <= to < path.len(),
        is_separator(path[to]),
        forall|i: int| from <= i < to ==> !is_separator(#[trigger] path[i]),
    ensures
        next_separator(path, from) == to,
    decreases to - from,
{
    if from < to {
        lemma_next_separator(path, from + 1, to);
    }
}

/// The file name of a path on a server is what stands behind its last separator; the
/// server and what it shares are no file name.
pub proof fn server_and_share_are_no_file_name(
    server: Seq<char>,
    share: Seq<char>,
    dir: Seq<char>,
    name: Seq<char>,
)
    requires
        server.len() > 0,
        share.len() > 0,
        name.len() > 0,
        !server.contains('/') && !server.contains('\\'),
        !share.contains('/') && !share.contains('\\'),
        !name.contains('/') && !name.contains('\\'),
        name != "."@,
        name != ".."@,
        dir.len() > 0 ==> dir[0] == '/' || dir[0] == '\\',
    ensures
        file_name(("\\\\"@ + server).push('\\') + share + (dir.push('\\') + name)) == Some(name),
        file_name(("\\\\"@ + server).push('\\') + share.push('\\')) is None,
{
    reveal_strlit("\\\\");
    let front = ("\\\\"@ + server).push('\\');
    assert forall|i: int| 0 <= i < name.len() implies !is_separator(#[trigger] name[i]) by {
        assert(name.contains(name[i]));
    }
    assert forall|i: int| 0 <= i < server.len() implies !is_separator(#[trigger] server[i]) by {
        assert(server.contains(server[i]));
    }
    assert forall|i: int| 0 <= i < share.len() implies !is_separator(#[trigger] share[i]) by {
        assert(share.contains(share[i]));
    }
    let s = server.len() + 2;
    let e = s + 1 + share.len();
    let tail = dir.push('\\') + name;
    let path = front + share + tail;
    let bare = front + share.push('\\');
    assert(path[0] == '\\' && path[1] == '\\');
    assert(bare[0] == '\\' && bare[1] == '\\');
    assert forall|i: int| 2 <= i < s implies !is_separator(#[trigger] path[i]) && !is_separator(
        bare[i],
    ) by {
        assert(path[i] == server[i - 2]);
        assert(bare[i] == server[i - 2]);
    }
    assert(path[s as int] == '\\' && bare[s as int] == '\\');
    assert forall|i: int| s + 1 <= i < e implies !is_separator(#[trigger] path[i])
        && !is_separator(bare[i]) by {
        assert(path[i] == share[i - s - 1]);
        assert(bare[i] == share[i - s - 1]);
    }
    assert forall|i: int| 2 <= i < s implies !is_separator(#[trigger] bare[i]) by {
        assert(!is_separator(path[i]));
    }
    assert forall|i: int| s + 1 <= i < e implies !is_separator(#[trigger] bare[i]) by {
        assert(!is_separator(path[i]));
    }
    lemma_next_separator(path, 2, s as int);
    lemma_next_separator(bare, 2, s as int);
    assert(bare[e as int] == '\\');
    lemma_next_separator(bare, s as int + 1, e as int);
    assert(bare.skip(e as int) =~= seq!['\\']);
    assert(!has_drive(path) && !has_drive(bare));
    assert(seq!['\\'].drop_last() =~= Seq::<char>::empty());
    assert(final_component(seq!['\\'].drop_last()) is None);
    assert(path[e as int] == tail[0]);
    assert(is_separator(path[e as int]));
    lemma_next_separator(path, s as int + 1, e as int);
    assert(path.skip(e as int) =~= tail);
    lemma_final_component(dir, '\\', name);
}

/// Separators behind a path, and `.` behind them, do not count; a path that ends in `..`
/// has no name, and is shown whole.
pub proof fn what_stands_behind_a_name_does_not_count(path: Seq<char>)
    requires
        path.len() > 1,
        path[0] != '/' && path[0] != '\\',
        path[1] != ':',
    ensures
        file_name(path.push('/')) == file_name(path),
        file_name(path.push('\\')) == file_name(path),
        file_name(path.push('/') + ".."@) is None,
        shown_name(path.push('/') + ".."@) == path.push('/') + ".."@,
        file_name(path.push('/') + "."@) == file_name(path),
{
    reveal_strlit("..");
    reveal_strlit(".");
    assert(path.push('/').drop_last() =~= path);
    assert(path.push('\\').drop_last() =~= path);
    assert(path.push('/').skip(0) =~= path.push('/'));
    assert(path.push('\\').skip(0) =~= path.push('\\'));
    assert(path.skip(0) =~= path);
    let up = path.push('/') + ".."@;
    let here = path.push('/') + "."@;
    assert(up.skip(0) =~= up);
    assert(here.skip(0) =~= here);
    lemma_start_behind(path.push('/'), ".."@, 2);
    lemma_start_behind(path.push('/'), "."@, 1);
    assert(".."@.take(2) =~= ".."@);
    assert("."@.take(1) =~= "."@);
    assert(up.skip(path.len() as int + 1) =~= ".."@);
    assert(here.skip(path.len() as int + 1) =~= "."@);
    assert("."@.len() != ".."@.len());
    assert(here.take(path.len() as int + 1) =~= path.push('/'));
    reveal_with_fuel(final_component, 3);
}

} // verus!
