//! POSIX paths as text: how they are joined, compared and cut.
use crate::text;
use crate::text::{chars_of, split_at_each};
use vstd::prelude::*;

verus! {

/// A path with a further part behind it. An absolute part stands alone, and a separator is
/// put in where the path does not end with one.
pub open spec fn pushed(base: Seq<char>, part: Seq<char>) -> Seq<char> {
    if part.len() > 0 && part.first() == '/' {
        part
    } else if base.len() == 0 || base.last() == '/' {
        base + part
    } else {
        base.push('/') + part
    }
}

/// Puts a part behind a path.
pub fn push_part(base: &str, part: &str) -> (path: String)
    ensures
        path@ == pushed(base@, part@),
{
    let base_chars = chars_of(base);
    let part_chars = chars_of(part);
    if part_chars.len() > 0 && part_chars[0] == '/' {
        return part.to_owned();
    }
    let mut path: String = base.to_owned();
    if base_chars.len() > 0 && base_chars[base_chars.len() - 1] != '/' {
        path.append("/");
        proof {
            reveal_strlit("/");
            assert(path@ =~= base@.push('/'));
        }
    }
    path.append(part);
    path
}

/// The pieces of a path that name something: not empty, and not `.` unless it comes first.
pub open spec fn names(pieces: Seq<Seq<char>>) -> Seq<Seq<char>>
    decreases pieces.len(),
{
    if pieces.len() == 0 {
        Seq::empty()
    } else {
        let before = names(pieces.drop_last());
        let piece = pieces.last();
        if piece.len() == 0 || (piece == seq!['.'] && pieces.len() > 1) {
            before
        } else {
            before.push(piece)
        }
    }
}

/// The components of a path: the root, if it begins with a separator, and then its names.
/// Two paths are the same if their components are.
pub open spec fn components(path: Seq<char>) -> Seq<Seq<char>> {
    let root = if path.len() > 0 && path.first() == '/' {
        seq![seq!['/']]
    } else {
        Seq::empty()
    };
    root + names(text::split(path, '/'))
}

/// The components of a path.
pub fn components_of(path: &str) -> (found: Vec<String>)
    ensures
        text::texts(found@) == components(path@),
{
    let chars = chars_of(path);
    let mut found: Vec<String> = Vec::new();
    if chars.len() > 0 && chars[0] == '/' {
        let root = path.substring_char(0, 1).to_owned();
        assert(root@ =~= seq!['/']);
        found.push(root);
    }
    let ghost root = text::texts(found@);
    assert(root =~= (if path@.len() > 0 && path@.first() == '/' {
        seq![seq!['/']]
    } else {
        Seq::empty()
    }));
    let pieces = split_at_each(path, '/');
    let ghost all = text::texts(pieces@);
    assert(root + names(all.take(0)) =~= root);
    for i in 0..pieces.len()
        invariant
            all == text::texts(pieces@),
            text::texts(found@) == root + names(all.take(i as int)),
    {
        let ghost before = text::texts(found@);
        let piece = chars_of(pieces[i].as_str());
        assert(all.take(i + 1).drop_last() =~= all.take(i as int));
        assert(all.take(i + 1).last() == piece@);
        let dot = piece.len() == 1 && piece[0] == '.';
        assert(dot == (piece@ == seq!['.'])) by {
            if dot {
                assert(piece@ =~= seq!['.']);
            }
        }
        if !(piece.len() == 0 || (dot && i > 0)) {
            found.push(pieces[i].clone());
            assert(text::texts(found@) =~= before.push(piece@));
            assert(text::texts(found@) =~= root + names(all.take(i + 1)));
        }
    }
    assert(all.take(all.len() as int) =~= all);
    found
}

/// A path up to the end of its last component, without the separators and `.` behind it.
pub open spec fn clean_end(path: Seq<char>) -> Seq<char>
    decreases path.len(),
{
    if path.len() > 1 && (path.last() == '/' || (path.last() == '.' && path[path.len() - 2]
        == '/')) {
        clean_end(path.drop_last())
    } else {
        path
    }
}

/// Where the text behind the last separator starts.
pub open spec fn name_start(path: Seq<char>) -> int
    decreases path.len(),
{
    if path.len() == 0 || path.last() == '/' {
        path.len() as int
    } else {
        name_start(path.drop_last())
    }
}

/// A path without its last component. The root and the empty path have no parent.
pub open spec fn parent(path: Seq<char>) -> Option<Seq<char>> {
    let clean = clean_end(path);
    if clean.len() == 0 || clean == seq!['/'] {
        None
    } else {
        Some(clean_end(clean.take(name_start(clean))))
    }
}

fn clean_end_at(chars: &Vec<char>, from: usize) -> (end: usize)
    requires
        from <= chars@.len(),
    ensures
        end <= from,
        chars@.take(end as int) == clean_end(chars@.take(from as int)),
{
    let mut end: usize = from;
    while end > 1 && (chars[end - 1] == '/' || (chars[end - 1] == '.' && chars[end - 2] == '/'))
        invariant
            end <= from <= chars@.len(),
            clean_end(chars@.take(end as int)) == clean_end(chars@.take(from as int)),
        decreases end,
    {
        assert(chars@.take(end as int).drop_last() =~= chars@.take(end - 1));
        end = end - 1;
    }
    end
}

/// The path without its last component, if it has one besides the root.
pub fn parent_of(path: &str) -> (found: Option<&str>)
    ensures
        match found {
            Some(text) => parent(path@) == Some(text@),
            None => parent(path@) is None,
        },
{
    let chars = chars_of(path);
    assert(chars@.take(chars@.len() as int) =~= chars@);
    let end: usize = clean_end_at(&chars, chars.len());
    let ghost clean = clean_end(path@);
    if end == 0 || (end == 1 && chars[0] == '/') {
        assert(end == 1 ==> clean =~= seq!['/']);
        return None;
    }
    let mut start: usize = end;
    assert(clean.take(end as int) =~= clean);
    while start > 0 && chars[start - 1] != '/'
        invariant
            chars@ == path@,
            start <= end <= chars@.len(),
            clean == chars@.take(end as int),
            name_start(clean.take(start as int)) == name_start(clean),
        decreases start,
    {
        assert(clean.take(start as int).drop_last() =~= clean.take(start - 1));
        start = start - 1;
    }
    assert(name_start(clean) == start);
    assert(chars@.take(start as int) =~= clean.take(start as int));
    let cut: usize = clean_end_at(&chars, start);
    assert(path@.subrange(0, cut as int) =~= path@.take(cut as int));
    assert(clean != seq!['/']) by {
        assert(clean.len() == end);
        assert(clean[0] == chars@[0]);
    }
    Some(path.substring_char(0, cut))
}

proof fn lemma_split_last_separator(path: Seq<char>)
    requires
        path.len() > 0,
        path.last() == '/',
    ensures
        text::split(path, '/') == text::split(path.drop_last(), '/').push(
            Seq::empty(),
        ),
        names(text::split(path, '/')) == names(
            text::split(path.drop_last(), '/'),
        ),
{
    let before = text::split(path.drop_last(), '/');
    assert(before.push(Seq::empty()).drop_last() =~= before);
}

proof fn lemma_clean_end_keeps_components(path: Seq<char>)
    ensures
        components(clean_end(path)) == components(path),
    decreases path.len(),
{
    if path.len() > 1 && path.last() == '/' {
        lemma_split_last_separator(path);
        lemma_clean_end_keeps_components(path.drop_last());
    } else if path.len() > 1 && path.last() == '.' && path[path.len() - 2] == '/' {
        let head = path.drop_last();
        lemma_split_last_separator(head);
        let before = text::split(head.drop_last(), '/');
        text::law_split_pieces(head.drop_last(), '/');
        let pieces = text::split(path, '/');
        assert(pieces =~= before.push(Seq::<char>::empty().push('.')));
        assert(Seq::<char>::empty().push('.') =~= seq!['.']);
        assert(pieces.drop_last() =~= before);
        lemma_clean_end_keeps_components(head);
    }
}

proof fn lemma_clean_end_shape(path: Seq<char>)
    ensures
        clean_end(path).len() > 1 ==> clean_end(path).last() != '/' && !(clean_end(path).last()
            == '.' && clean_end(path)[clean_end(path).len() - 2] == '/'),
    decreases path.len(),
{
    if path.len() > 1 && (path.last() == '/' || (path.last() == '.' && path[path.len() - 2]
        == '/')) {
        lemma_clean_end_shape(path.drop_last());
    }
}

proof fn lemma_name_start(path: Seq<char>)
    ensures
        0 <= name_start(path) <= path.len(),
        name_start(path) > 0 ==> path[name_start(path) - 1] == '/',
        !path.skip(name_start(path)).contains('/'),
    decreases path.len(),
{
    if !(path.len() == 0 || path.last() == '/') {
        let head = path.drop_last();
        lemma_name_start(head);
        let start = name_start(head);
        assert forall|k: int| 0 <= k < path.skip(start).len() implies path.skip(start)[k]
            != '/' by {
            if k < head.skip(start).len() {
                assert(head.skip(start)[k] != '/');
            }
        }
    }
}

/// The parent of a path holds all of its components but the last one, and there is none
/// exactly where no component but the root could be left out.
pub proof fn law_parent_drops_last_component(path: Seq<char>)
    ensures
        parent(path) is None <==> (components(path) == Seq::<Seq<char>>::empty() || components(path)
            == seq![seq!['/']]),
        parent(path) matches Some(head) ==> components(head) == components(path).drop_last(),
{
    let clean = clean_end(path);
    lemma_clean_end_keeps_components(path);
    lemma_clean_end_shape(path);
    if clean.len() == 0 {
        assert(clean =~= Seq::empty());
        reveal_with_fuel(names, 2);
        assert(components(clean) =~= Seq::empty());
    } else if clean == seq!['/'] {
        lemma_split_last_separator(clean);
        assert(clean.drop_last() =~= Seq::empty());
        reveal_with_fuel(names, 2);
        assert(components(clean) =~= seq![seq!['/']]);
    } else {
        let start = name_start(clean);
        let name = clean.skip(start);
        let head = clean.take(start);
        lemma_name_start(clean);
        lemma_clean_end_keeps_components(head);
        assert(clean.last() != '/') by {
            if clean.len() == 1 {
                assert(clean =~= seq![clean[0]]);
            }
        }
        assert(name.len() > 0) by {
            if start == clean.len() {
                assert(clean[start - 1] == '/');
            }
        }
        if start == 0 {
            assert(name =~= clean);
            text::lemma_split_whole(clean, '/');
            assert(head =~= Seq::empty());
            reveal_with_fuel(names, 2);
            assert(seq![clean].drop_last() =~= Seq::empty());
            assert(components(clean) =~= seq![clean]);
            assert(!(clean == seq!['/']));
            assert(components(clean) != seq![seq!['/']]) by {
                assert(components(clean)[0] == clean);
            }
            assert(components(head) =~= Seq::empty());
            assert(components(clean).drop_last() =~= Seq::empty());
            assert(components(clean).len() == 1);
        } else {
            let before = text::split(head.drop_last(), '/');
            lemma_split_last_separator(head);
            text::law_split_pieces(head.drop_last(), '/');
            text::lemma_split_appended(head.drop_last(), name, '/');
            assert(head.drop_last() + seq!['/'] + name =~= clean);
            assert(before.push(name).drop_last() =~= before);
            assert(name != seq!['.']) by {
                if name == seq!['.'] {
                    assert(clean.last() == name.last());
                    assert(clean[clean.len() - 2] == '/');
                }
            }
            assert(components(clean) =~= components(head).push(name));
            assert(components(clean).drop_last() =~= components(head));
            assert(components(clean).last() == name);
            assert(components(clean) != seq![seq!['/']]) by {
                assert(name[0] != '/');
            }
        }
    }
}

/// A part is put behind a path with one separator between them, unless the path is empty or
/// ends with a separator already; an absolute part stands alone.
pub proof fn law_push_puts_one_separator(base: Seq<char>, part: Seq<char>)
    ensures
        part.len() > 0 && part[0] == '/' ==> pushed(base, part) == part,
        (part.len() == 0 || part[0] != '/') && base.len() > 0 && base[base.len() - 1] != '/'
            ==> pushed(base, part) == base + seq!['/'] + part,
        (part.len() == 0 || part[0] != '/') && (base.len() == 0 || base[base.len() - 1] == '/')
            ==> pushed(base, part) == base + part,
{
    assert(base.push('/') + part =~= base + seq!['/'] + part);
}

proof fn lemma_names_skip(front: Seq<Seq<char>>, skipped: Seq<char>, rest: Seq<Seq<char>>)
    requires
        front.len() > 0,
        skipped.len() == 0 || skipped == seq!['.'],
    ensures
        names(front + seq![skipped] + rest) == names(front + rest),
    decreases rest.len(),
{
    let whole = front + seq![skipped] + rest;
    if rest.len() == 0 {
        assert(whole.drop_last() =~= front);
        assert(whole.last() == skipped);
        assert(front + rest =~= front);
    } else {
        let shorter = rest.drop_last();
        lemma_names_skip(front, skipped, shorter);
        assert(whole.drop_last() =~= front + seq![skipped] + shorter);
        assert((front + rest).drop_last() =~= front + shorter);
        assert(whole.last() == rest.last());
        assert((front + rest).last() == rest.last());
    }
}

proof fn lemma_names_of_proper(front: Seq<Seq<char>>, list: Seq<Seq<char>>)
    requires
        forall|i: int|
            0 <= i < list.len() ==> (#[trigger] list[i]).len() > 0 && list[i] != seq!['.'],
    ensures
        names(front + list) == names(front) + list,
    decreases list.len(),
{
    if list.len() == 0 {
        assert(front + list =~= front);
        assert(names(front) + list =~= names(front));
    } else {
        let shorter = list.drop_last();
        assert forall|i: int| 0 <= i < shorter.len() implies (#[trigger] shorter[i]).len() > 0
            && shorter[i] != seq!['.'] by {
            assert(shorter[i] == list[i]);
        }
        lemma_names_of_proper(front, shorter);
        assert((front + list).drop_last() =~= front + shorter);
        assert(list[list.len() - 1].len() > 0);
        assert((names(front) + shorter).push(list.last()) =~= names(front) + list);
    }
}

/// The components of a path that is written from names are those names, behind the root if a
/// separator comes first, and behind `.` if that comes first.
pub proof fn law_components_of_names(list: Seq<Seq<char>>)
    requires
        forall|i: int|
            0 <= i < list.len() ==> (#[trigger] list[i]).len() > 0 && list[i] != seq!['.']
                && !list[i].contains('/'),
    ensures
        components(text::join(list, seq!['/'])) == list,
        components(seq!['/'] + text::join(list, seq!['/'])) == seq![seq!['/']] + list,
        components(seq!['.', '/'] + text::join(list, seq!['/'])) == seq![seq!['.']] + list,
{
    let path = text::join(list, seq!['/']);
    let none = Seq::<Seq<char>>::empty();
    reveal_with_fuel(names, 2);
    lemma_names_of_proper(none, list);
    assert(none + list =~= list);
    if list.len() == 0 {
        assert(path =~= Seq::empty());
        assert(seq![Seq::<char>::empty()].drop_last() =~= none);
        assert(list =~= none);
    } else {
        text::law_split_undoes_join(list, '/');
        assert(path.len() > 0 && path.first() != '/') by {
            text::law_join_in_parts(seq![list[0]], list.drop_first(), seq!['/']);
            assert(seq![list[0]] + list.drop_first() =~= list);
            assert(list[0][0] != '/') by {
                assert(!list[0].contains('/'));
            }
            if list.len() == 1 {
                assert(path == list[0]);
            } else {
                assert(path[0] == list[0][0]);
            }
        }
        assert(components(path) =~= list);
    }
    let pieces = text::split(path, '/');
    assert(names(pieces) == list);
    let root = Seq::<char>::empty() + seq!['/'] + path;
    assert(root =~= seq!['/'] + path);
    text::law_split_in_parts(Seq::empty(), path, '/');
    let first = seq![Seq::<char>::empty()];
    assert(first.drop_last() =~= none);
    assert(names(first) == none);
    let dot = seq!['.'] + seq!['/'] + path;
    assert(dot =~= seq!['.', '/'] + path);
    text::law_split_in_parts(seq!['.'], path, '/');
    text::lemma_split_whole(seq!['.'], '/');
    assert(seq![seq!['.']].drop_last() =~= none);
    assert(names(seq![seq!['.']]) =~= seq![seq!['.']]);
    if list.len() == 0 {
        assert(pieces =~= first);
        assert(first + pieces =~= first + seq![Seq::<char>::empty()] + none);
        lemma_names_skip(first, Seq::empty(), none);
        assert(first + none =~= first);
        assert(seq![seq!['.']] + pieces =~= seq![seq!['.']] + seq![Seq::<char>::empty()] + none);
        lemma_names_skip(seq![seq!['.']], Seq::empty(), none);
        assert(seq![seq!['.']] + none =~= seq![seq!['.']]);
    } else {
        assert(pieces == list);
        lemma_names_of_proper(first, list);
        lemma_names_of_proper(seq![seq!['.']], list);
    }
    assert(components(root) =~= seq![seq!['/']] + list);
    assert(components(dot) =~= seq![seq!['.']] + list);
}

/// A separator more, or a `.` between separators, makes no other path, nor does a separator at
/// the end.
pub proof fn law_components_ignore_clutter(front: Seq<char>, rest: Seq<char>)
    ensures
        components(front + seq!['/', '/'] + rest) == components(front + seq!['/'] + rest),
        components(front + seq!['/', '.', '/'] + rest) == components(front + seq!['/'] + rest),
        front.len() > 0 ==> components(front + seq!['/']) == components(front),
{
    let plain = front + seq!['/'] + rest;
    let pieces = text::split(front, '/');
    let more = text::split(rest, '/');
    let nothing = Seq::<char>::empty();
    text::law_split_pieces(front, '/');
    text::law_split_in_parts(front, rest, '/');
    text::law_split_in_parts(nothing, rest, '/');
    text::law_split_in_parts(seq!['.'], rest, '/');
    text::lemma_split_whole(seq!['.'], '/');
    let twice = nothing + seq!['/'] + rest;
    text::law_split_in_parts(front, twice, '/');
    assert(front + seq!['/'] + twice =~= front + seq!['/', '/'] + rest);
    assert(pieces + (seq![nothing] + more) =~= pieces + seq![nothing] + more);
    lemma_names_skip(pieces, nothing, more);
    let dotted = seq!['.'] + seq!['/'] + rest;
    text::law_split_in_parts(front, dotted, '/');
    assert(front + seq!['/'] + dotted =~= front + seq!['/', '.', '/'] + rest);
    assert(pieces + (seq![seq!['.']] + more) =~= pieces + seq![seq!['.']] + more);
    lemma_names_skip(pieces, seq!['.'], more);
    assert((front + seq!['/', '/'] + rest)[0] == plain[0]);
    assert((front + seq!['/', '.', '/'] + rest)[0] == plain[0]);
    if front.len() > 0 {
        let ended = front + seq!['/'];
        assert(ended.drop_last() =~= front);
        lemma_split_last_separator(ended);
        assert(ended[0] == front[0]);
    }
}

/// Putting a name behind a path adds a component, and it is the name.
pub proof fn law_push_adds_component(base: Seq<char>, name: Seq<char>)
    requires
        name.len() > 0,
        name != seq!['.'],
        !name.contains('/'),
    ensures
        components(pushed(base, name)) == components(base).push(name),
{
    assert(name[0] != '/');
    text::lemma_split_whole(name, '/');
    if base.len() == 0 {
        law_components_of_names(seq![name]);
        law_components_of_names(Seq::empty());
        assert(base =~= Seq::empty());
        assert(pushed(base, name) =~= name);
        assert(Seq::<Seq<char>>::empty().push(name) =~= seq![name]);
    } else {
        let head = if base.last() == '/' {
            base.drop_last()
        } else {
            base
        };
        assert(pushed(base, name) =~= head + seq!['/'] + name);
        text::law_split_in_parts(head, name, '/');
        lemma_names_of_proper(text::split(head, '/'), seq![name]);
        if base.last() == '/' {
            lemma_split_last_separator(base);
        }
        assert(pushed(base, name)[0] == base[0]);
        assert(components(pushed(base, name)) =~= components(base).push(name));
    }
}

proof fn lemma_clean_end_prefix(path: Seq<char>)
    ensures
        clean_end(path).len() <= path.len(),
        path.take(clean_end(path).len() as int) == clean_end(path),
    decreases path.len(),
{
    if path.len() > 1 && (path.last() == '/' || (path.last() == '.' && path[path.len() - 2]
        == '/')) {
        lemma_clean_end_prefix(path.drop_last());
        assert(path.take(clean_end(path).len() as int) =~= path.drop_last().take(
            clean_end(path).len() as int,
        ));
    } else {
        assert(path.take(path.len() as int) =~= path);
    }
}

/// The parent of a path is how the path begins, and no separator is left at its end but that of
/// the root.
pub proof fn law_parent_begins_the_path(path: Seq<char>)
    ensures
        parent(path) matches Some(head) ==> head.len() < path.len() && path.take(head.len() as int)
            == head && (head.len() > 1 ==> head[head.len() - 1] != '/'),
{
    let clean = clean_end(path);
    lemma_clean_end_prefix(path);
    lemma_clean_end_shape(path);
    if let Some(head) = parent(path) {
        let start = name_start(clean);
        lemma_name_start(clean);
        let cut = clean.take(start);
        lemma_clean_end_prefix(cut);
        lemma_clean_end_shape(cut);
        assert(path.take(head.len() as int) =~= cut.take(head.len() as int));
        assert(head.len() < clean.len()) by {
            if start == clean.len() {
                assert(clean.last() == '/');
                assert(clean.len() == 1);
                assert(clean =~= seq!['/']);
            }
        }
    }
}

/// The parent of a name in a directory is that directory, as it is written.
pub proof fn law_parent_of_name_in_directory(dir: Seq<char>, name: Seq<char>)
    requires
        dir.len() > 0,
        dir.last() != '/',
        dir.len() > 1 ==> !(dir.last() == '.' && dir[dir.len() - 2] == '/'),
        name.len() > 0,
        name != seq!['.'],
        !name.contains('/'),
    ensures
        parent(dir + seq!['/'] + name) == Some(dir),
{
    let whole = dir + seq!['/'] + name;
    assert(whole.last() == name[name.len() - 1]);
    assert(name[name.len() - 1] != '/');
    if whole.last() == '.' && whole[whole.len() - 2] == '/' {
        if name.len() > 1 {
            assert(whole[whole.len() - 2] == name[name.len() - 2]);
        } else {
            assert(name =~= seq!['.']);
        }
    }
    assert(clean_end(whole) == whole);
    assert(whole != seq!['/']);
    let start = name_start(whole);
    lemma_name_start(whole);
    assert(whole[dir.len() as int] == '/');
    assert(start > dir.len()) by {
        if start <= dir.len() {
            assert(whole.skip(start)[dir.len() - start] == '/');
        }
    }
    assert(start == dir.len() + 1) by {
        if start > dir.len() + 1 {
            assert(whole[start - 1] == name[start - 2 - dir.len()]);
        }
    }
    let cut = whole.take(start);
    assert(cut.last() == '/');
    assert(cut.drop_last() =~= dir);
    assert(clean_end(dir) == dir);
}

} // verus!
