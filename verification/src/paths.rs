//! Slash-separated paths as sequences of components.

use vstd::prelude::*;

use crate::order::{lemma_insert_at, sort_stable, text_less, text_lt};
use crate::text::{
    join, join_spec, lemma_rfind_from, lemma_texts_push, opt_text, rfind_chars, rfind_text,
    same_text, split_chars, split_on, sub_text, texts, to_chars, to_text,
};

verus! {

/// A piece between slashes that names a component: not empty, and `.` only where it
/// opens a relative path.
pub open spec fn keeps_piece(index: int, piece: Seq<char>) -> bool {
    piece.len() > 0 && (piece != "."@ || index == 0)
}

/// The pieces that name components, in order.
pub open spec fn kept_pieces(pieces: Seq<Seq<char>>) -> Seq<Seq<char>>
    decreases pieces.len(),
{
    if pieces.len() == 0 {
        Seq::empty()
    } else {
        let rest = kept_pieces(pieces.drop_last());
        if keeps_piece(pieces.len() - 1, pieces.last()) {
            rest.push(pieces.last())
        } else {
            rest
        }
    }
}

pub open spec fn is_absolute_spec(path: Seq<char>) -> bool {
    path.len() > 0 && path[0] == '/'
}

/// The components of a path; the root of an absolute path is the component `/`.
pub open spec fn components_of(path: Seq<char>) -> Seq<Seq<char>> {
    let parts = kept_pieces(split_on(path, '/'));
    if is_absolute_spec(path) {
        seq!["/"@] + parts
    } else {
        parts
    }
}

/// The text of a path with the given components.
pub open spec fn path_text(components: Seq<Seq<char>>) -> Seq<char> {
    if components.len() > 0 && components[0] == "/"@ {
        "/"@ + join_spec(components.skip(1), "/"@)
    } else {
        join_spec(components, "/"@)
    }
}

pub fn is_absolute(path: &str) -> (r: bool)
    ensures
        r == is_absolute_spec(path@),
{
    let chars = to_chars(path);
    chars.len() > 0 && chars[0] == '/'
}

/// The components of a path.
pub fn components(path: &str) -> (r: Vec<String>)
    ensures
        texts(r@) == components_of(path@),
{
    let chars = to_chars(path);
    let pieces = split_chars(chars.as_slice(), '/');
    let ghost all = pieces@.map_values(|v: Vec<char>| v@);
    let mut out: Vec<String> = Vec::new();
    let absolute = is_absolute(path);
    if absolute {
        out.push("/".to_owned());
    }
    let ghost head = if absolute {
        seq!["/"@]
    } else {
        Seq::<Seq<char>>::empty()
    };
    proof {
        assert(all.take(0) =~= Seq::<Seq<char>>::empty());
        assert(texts(out@) =~= head + kept_pieces(all.take(0)));
    }
    let mut i: usize = 0;
    while i < pieces.len()
        invariant
            i <= pieces@.len(),
            all == pieces@.map_values(|v: Vec<char>| v@),
            texts(out@) == head + kept_pieces(all.take(i as int)),
        decreases pieces@.len() - i,
    {
        let piece = to_text(pieces[i].as_slice());
        let ghost before = texts(out@);
        proof {
            assert(all.take(i + 1).drop_last() =~= all.take(i as int));
            assert(all.take(i + 1).last() == piece@);
        }
        if !piece.as_str().is_empty() && (i == 0 || !same_text(piece.as_str(), ".")) {
            proof {
                assert(texts(out@.push(piece)) =~= before.push(piece@));
                assert(before.push(piece@) =~= head + kept_pieces(all.take(i as int)).push(
                    piece@,
                ));
            }
            out.push(piece);
        }
        i = i + 1;
    }
    proof {
        assert(all.take(all.len() as int) =~= all);
        assert(Seq::<Seq<char>>::empty() + kept_pieces(all) =~= kept_pieces(all));
    }
    out
}

/// The text of a path with the given components.
pub fn render_path(parts: &[String]) -> (r: String)
    ensures
        r@ == path_text(texts(parts@)),
{
    if parts.len() > 0 && same_text(parts[0].as_str(), "/") {
        let mut rest: Vec<String> = Vec::new();
        let mut i: usize = 1;
        while i < parts.len()
            invariant
                1 <= i <= parts@.len(),
                texts(rest@) == texts(parts@).subrange(1, i as int),
            decreases parts@.len() - i,
        {
            let part = parts[i].clone();
            proof {
                lemma_texts_push(rest@, part);
                assert(texts(parts@).subrange(1, i + 1) =~= texts(parts@).subrange(1, i as int).push(part@));
            }
            rest.push(part);
            i = i + 1;
        }
        let mut out = "/".to_owned();
        let tail = join(rest.as_slice(), "/");
        proof {
            assert(texts(parts@).subrange(1, parts@.len() as int) =~= texts(parts@).skip(1));
        }
        out.append(tail.as_str());
        out
    } else {
        join(parts, "/")
    }
}

/// Component-wise prefix test.
pub open spec fn is_under(path: Seq<char>, base: Seq<char>) -> bool {
    components_of(base).is_prefix_of(components_of(path))
}

/// The path below `base`, where it lies under it.
pub open spec fn strip_base(path: Seq<char>, base: Seq<char>) -> Option<Seq<char>> {
    if is_under(path, base) {
        Some(path_text(components_of(path).skip(components_of(base).len() as int)))
    } else {
        None
    }
}

/// The path below `base`, or the path itself where it lies elsewhere.
pub open spec fn relative_spec(path: Seq<char>, base: Seq<char>) -> Seq<char> {
    match strip_base(path, base) {
        Some(rel) => rel,
        None => path,
    }
}

/// Whether the first strings of `list` are those of `prefix`.
fn begins_with(list: &[String], prefix: &[String]) -> (r: bool)
    ensures
        r == texts(prefix@).is_prefix_of(texts(list@)),
{
    if prefix.len() > list.len() {
        return false;
    }
    let mut i: usize = 0;
    while i < prefix.len()
        invariant
            i <= prefix@.len() <= list@.len(),
            forall|j: int| 0 <= j < i ==> prefix@[j]@ == list@[j]@,
        decreases prefix@.len() - i,
    {
        if !same_text(prefix[i].as_str(), list[i].as_str()) {
            proof {
                if texts(prefix@).is_prefix_of(texts(list@)) {
                    assert(texts(list@).subrange(0, prefix@.len() as int)[i as int] == texts(
                        prefix@,
                    )[i as int]);
                }
            }
            return false;
        }
        i = i + 1;
    }
    proof {
        assert(texts(list@).subrange(0, prefix@.len() as int) =~= texts(prefix@));
    }
    true
}

/// Whether `path` is `base` or lies below it, component by component.
pub fn under(path: &str, base: &str) -> (r: bool)
    ensures
        r == is_under(path@, base@),
{
    let p = components(path);
    let b = components(base);
    begins_with(p.as_slice(), b.as_slice())
}

/// The path below `base`, where it lies under it.
pub fn strip(path: &str, base: &str) -> (r: Option<String>)
    ensures
        opt_text(r) == strip_base(path@, base@),
{
    let p = components(path);
    let b = components(base);
    if !begins_with(p.as_slice(), b.as_slice()) {
        return None;
    }
    let mut rest: Vec<String> = Vec::new();
    let mut i: usize = b.len();
    proof {
        assert(texts(b@).len() <= texts(p@).len());
    }
    while i < p.len()
        invariant
            b@.len() <= i <= p@.len(),
            texts(rest@) == texts(p@).subrange(b@.len() as int, i as int),
        decreases p@.len() - i,
    {
        let part = p[i].clone();
        proof {
            lemma_texts_push(rest@, part);
            assert(texts(p@).subrange(b@.len() as int, i + 1) =~= texts(p@).subrange(
                b@.len() as int,
                i as int,
            ).push(part@));
        }
        rest.push(part);
        i = i + 1;
    }
    proof {
        assert(texts(p@).subrange(b@.len() as int, p@.len() as int) =~= texts(p@).skip(
            b@.len() as int,
        ));
    }
    Some(render_path(rest.as_slice()))
}

/// The path below `base`, or the path itself.
pub fn relative(path: &str, base: &str) -> (r: String)
    ensures
        r@ == relative_spec(path@, base@),
{
    match strip(path, base) {
        Some(rel) => rel,
        None => path.to_owned(),
    }
}

/// The last component, where it names an entry.
pub open spec fn file_name_spec(path: Seq<char>) -> Option<Seq<char>> {
    let parts = components_of(path);
    if parts.len() == 0 || parts.last() == "/"@ || parts.last() == ".."@ || parts.last() == "."@ {
        None
    } else {
        Some(parts.last())
    }
}

pub fn file_name(path: &str) -> (r: Option<String>)
    ensures
        opt_text(r) == file_name_spec(path@),
{
    let parts = components(path);
    proof {
        assert(texts(parts@).len() == parts@.len());
    }
    if parts.len() == 0 {
        return None;
    }
    let last = parts[parts.len() - 1].clone();
    if same_text(last.as_str(), "/") || same_text(last.as_str(), "..") || same_text(
        last.as_str(),
        ".",
    ) {
        None
    } else {
        Some(last)
    }
}

/// What follows the last dot of the file name, where that dot does not open it.
pub open spec fn extension_spec(path: Seq<char>) -> Option<Seq<char>> {
    match file_name_spec(path) {
        None => None,
        Some(name) => match rfind_text(name, seq!['.']) {
            None => None,
            Some(i) => if i == 0 {
                None
            } else {
                Some(name.skip(i + 1))
            },
        },
    }
}

pub fn extension(path: &str) -> (r: Option<String>)
    ensures
        opt_text(r) == extension_spec(path@),
{
    match file_name(path) {
        None => None,
        Some(name) => {
            let chars = to_chars(name.as_str());
            let len: usize = chars.len();
            let mut dot: Vec<char> = Vec::new();
            dot.push('.');
            proof {
                assert(dot@ =~= seq!['.']);
                lemma_rfind_from(name@, seq!['.'], name@.len() - 1);
            }
            match rfind_chars(chars.as_slice(), dot.as_slice()) {
                None => None,
                Some(i) => if i == 0 {
                    None
                } else {
                    Some(sub_text(chars.as_slice(), i + 1, len))
                },
            }
        },
    }
}

/// The file name up to its last dot, where that dot does not open it.
pub open spec fn file_stem_spec(path: Seq<char>) -> Option<Seq<char>> {
    match file_name_spec(path) {
        None => None,
        Some(name) => match rfind_text(name, seq!['.']) {
            None => Some(name),
            Some(i) => if i == 0 {
                Some(name)
            } else {
                Some(name.take(i))
            },
        },
    }
}

pub fn file_stem(path: &str) -> (r: Option<String>)
    ensures
        opt_text(r) == file_stem_spec(path@),
{
    match file_name(path) {
        None => None,
        Some(name) => {
            let chars = to_chars(name.as_str());
            let mut dot: Vec<char> = Vec::new();
            dot.push('.');
            proof {
                assert(dot@ =~= seq!['.']);
                lemma_rfind_from(name@, seq!['.'], name@.len() - 1);
            }
            match rfind_chars(chars.as_slice(), dot.as_slice()) {
                None => Some(name),
                Some(i) => if i == 0 {
                    Some(name)
                } else {
                    Some(sub_text(chars.as_slice(), 0, i))
                },
            }
        },
    }
}

/// The extension, or the empty text.
pub open spec fn ext_or_empty(path: Seq<char>) -> Seq<char> {
    match extension_spec(path) {
        Some(e) => e,
        None => Seq::empty(),
    }
}

pub fn ext_of(path: &str) -> (r: String)
    ensures
        r@ == ext_or_empty(path@),
{
    match extension(path) {
        Some(e) => e,
        None => String::new(),
    }
}

/// `rel` seen from `base`; an absolute `rel` stands for itself.
pub open spec fn join_path_spec(base: Seq<char>, rel: Seq<char>) -> Seq<char> {
    if is_absolute_spec(rel) || base.len() == 0 {
        rel
    } else if base.last() == '/' {
        base + rel
    } else {
        base + "/"@ + rel
    }
}

pub fn join_path(base: &str, rel: &str) -> (r: String)
    ensures
        r@ == join_path_spec(base@, rel@),
{
    if is_absolute(rel) || base.is_empty() {
        return rel.to_owned();
    }
    let chars = to_chars(base);
    let mut out = base.to_owned();
    if chars[chars.len() - 1] != '/' {
        out.append("/");
    }
    out.append(rel);
    out
}

// ---- lexical normalisation ----

/// One component applied to the components gathered so far: `.` changes nothing and
/// `..` takes the last one back, though never the root.
pub open spec fn normal_step(done: Seq<Seq<char>>, part: Seq<char>) -> Seq<Seq<char>> {
    if part == "."@ {
        done
    } else if part == ".."@ {
        if done.len() == 0 || done == seq!["/"@] {
            done
        } else {
            done.drop_last()
        }
    } else {
        done.push(part)
    }
}

/// The components with `.` and `..` resolved textually.
pub open spec fn normal_parts(parts: Seq<Seq<char>>) -> Seq<Seq<char>>
    decreases parts.len(),
{
    if parts.len() == 0 {
        Seq::empty()
    } else {
        normal_step(normal_parts(parts.drop_last()), parts.last())
    }
}

pub open spec fn normalize_spec(path: Seq<char>) -> Seq<char> {
    path_text(normal_parts(components_of(path)))
}

/// Two texts of one path: they have the same components.
pub open spec fn same_path(a: Seq<char>, b: Seq<char>) -> bool {
    components_of(a) == components_of(b)
}

/// A list holds a path, in whatever text.
pub open spec fn names_path(list: Seq<Seq<char>>, path: Seq<char>) -> bool {
    exists|i: int| 0 <= i < list.len() && same_path(#[trigger] list[i], path)
}

/// A path written as its components are, with nothing between them but one slash.
pub open spec fn is_plain_path(path: Seq<char>) -> bool {
    path_text(components_of(path)) == path
}

pub open spec fn plain_paths(list: Seq<Seq<char>>) -> bool {
    forall|i: int| 0 <= i < list.len() ==> is_plain_path(#[trigger] list[i])
}

pub(crate) fn plain_path(path: &str) -> (r: bool)
    ensures
        r == is_plain_path(path@),
{
    let parts = components(path);
    let text = render_path(parts.as_slice());
    same_text(text.as_str(), path)
}

pub(crate) fn all_plain(list: &[String]) -> (r: bool)
    ensures
        r == plain_paths(texts(list@)),
{
    let ghost all = texts(list@);
    let mut i: usize = 0;
    while i < list.len()
        invariant
            i <= list@.len(),
            all == texts(list@),
            forall|j: int| 0 <= j < i ==> is_plain_path(#[trigger] all[j]),
        decreases list@.len() - i,
    {
        proof {
            assert(all[i as int] == list@[i as int]@);
        }
        if !plain_path(list[i].as_str()) {
            return false;
        }
        i = i + 1;
    }
    true
}

fn same_parts(a: &[String], b: &[String]) -> (r: bool)
    ensures
        r == (texts(a@) == texts(b@)),
{
    proof {
        assert(texts(a@).len() == a@.len() && texts(b@).len() == b@.len());
    }
    if a.len() != b.len() {
        return false;
    }
    let mut i: usize = 0;
    while i < a.len()
        invariant
            i <= a@.len(),
            a@.len() == b@.len(),
            forall|j: int| 0 <= j < i ==> #[trigger] texts(a@)[j] == texts(b@)[j],
        decreases a@.len() - i,
    {
        proof {
            assert(texts(a@)[i as int] == a@[i as int]@);
            assert(texts(b@)[i as int] == b@[i as int]@);
        }
        if !same_text(a[i].as_str(), b[i].as_str()) {
            return false;
        }
        i = i + 1;
    }
    proof {
        assert(texts(a@) =~= texts(b@));
    }
    true
}

/// Tells whether a list holds a path. Where the list is known to be plain, a plain path is
/// looked for by its text.
pub(crate) fn lists_path(list: &[String], plain: bool, path: &str) -> (r: bool)
    requires
        plain ==> plain_paths(texts(list@)),
    ensures
        r == names_path(texts(list@), path@),
{
    let ghost all = texts(list@);
    let by_text = plain && plain_path(path);
    let parts = components(path);
    let mut i: usize = 0;
    while i < list.len()
        invariant
            i <= list@.len(),
            all == texts(list@),
            texts(parts@) == components_of(path@),
            by_text ==> plain_paths(all) && is_plain_path(path@),
            forall|j: int| 0 <= j < i ==> !same_path(#[trigger] all[j], path@),
        decreases list@.len() - i,
    {
        proof {
            assert(all[i as int] == list@[i as int]@);
        }
        let found = if by_text {
            proof {
                assert(is_plain_path(all[i as int]));
            }
            same_text(list[i].as_str(), path)
        } else {
            let own = components(list[i].as_str());
            same_parts(own.as_slice(), parts.as_slice())
        };
        if found {
            proof {
                assert(same_path(all[i as int], path@));
            }
            return true;
        }
        i = i + 1;
    }
    false
}

/// Resolves `.` and `..` textually, without touching the file system.
pub fn normalize_lexically(path: &str) -> (r: String)
    ensures
        r@ == normalize_spec(path@),
{
    let parts = components(path);
    let mut done: Vec<String> = Vec::new();
    let mut i: usize = 0;
    proof {
        assert(texts(parts@).take(0) =~= Seq::<Seq<char>>::empty());
        assert(texts(done@) =~= Seq::<Seq<char>>::empty());
    }
    while i < parts.len()
        invariant
            i <= parts@.len(),
            texts(done@) == normal_parts(texts(parts@).take(i as int)),
        decreases parts@.len() - i,
    {
        let ghost before = done@;
        proof {
            assert(texts(parts@).take(i + 1).drop_last() =~= texts(parts@).take(i as int));
            assert(texts(parts@).take(i + 1).last() == parts@[i as int]@);
        }
        if same_text(parts[i].as_str(), ".") {
        } else if same_text(parts[i].as_str(), "..") {
            let at_root = done.len() == 1 && same_text(done[0].as_str(), "/");
            proof {
                if at_root {
                    assert(texts(done@) =~= seq!["/"@]);
                } else if texts(done@) == seq!["/"@] {
                    assert(texts(done@).len() == done@.len());
                    assert(texts(done@)[0] == done@[0]@);
                }
            }
            if done.len() > 0 && !at_root {
                proof {
                    assert(texts(before.drop_last()) =~= texts(before).drop_last());
                }
                done.pop();
            }
        } else {
            let part = parts[i].clone();
            proof {
                assert(texts(before.push(part)) =~= texts(before).push(part@));
            }
            done.push(part);
        }
        i = i + 1;
    }
    proof {
        assert(texts(parts@).take(parts@.len() as int) =~= texts(parts@));
    }
    render_path(done.as_slice())
}

/// Resolved components hold no `.` and no `..`.
pub proof fn lemma_normal_parts_are_plain(parts: Seq<Seq<char>>)
    ensures
        forall|i: int|
            0 <= i < normal_parts(parts).len() ==> normal_parts(parts)[i] != "."@ && normal_parts(
                parts,
            )[i] != ".."@,
    decreases parts.len(),
{
    if parts.len() > 0 {
        lemma_normal_parts_are_plain(parts.drop_last());
        let done = normal_parts(parts.drop_last());
        assert(normal_parts(parts) == normal_step(done, parts.last()));
        assert forall|i: int| 0 <= i < normal_parts(parts).len() implies normal_parts(parts)[i]
            != "."@ && normal_parts(parts)[i] != ".."@ by {
            if i < done.len() {
                assert(normal_parts(parts)[i] == done[i]);
            }
        }
    }
}

/// Resolving what is resolved changes nothing.
pub proof fn law_normalization_is_idempotent(parts: Seq<Seq<char>>)
    ensures
        normal_parts(normal_parts(parts)) == normal_parts(parts),
{
    lemma_normal_parts_are_plain(parts);
    lemma_plain_parts_stay(normal_parts(parts));
}

proof fn lemma_plain_parts_stay(parts: Seq<Seq<char>>)
    requires
        forall|i: int| 0 <= i < parts.len() ==> parts[i] != "."@ && parts[i] != ".."@,
    ensures
        normal_parts(parts) == parts,
    decreases parts.len(),
{
    if parts.len() > 0 {
        lemma_plain_parts_stay(parts.drop_last());
        assert(parts.drop_last().push(parts.last()) =~= parts);
    } else {
        assert(parts =~= Seq::<Seq<char>>::empty());
    }
}

// ---- path order ----

/// The kind of a component: the root, the directory itself, its parent, or a name.
pub open spec fn part_kind(c: Seq<char>) -> int {
    if c == "/"@ {
        0
    } else if c == "."@ {
        1
    } else if c == ".."@ {
        2
    } else {
        3
    }
}

/// The order of components: by their kind, and names by their text.
pub open spec fn part_lt(a: Seq<char>, b: Seq<char>) -> bool {
    if part_kind(a) != part_kind(b) {
        part_kind(a) < part_kind(b)
    } else {
        text_lt(a, b)
    }
}

fn kind_of(c: &str) -> (r: u8)
    ensures
        r == part_kind(c@),
{
    if same_text(c, "/") {
        0
    } else if same_text(c, ".") {
        1
    } else if same_text(c, "..") {
        2
    } else {
        3
    }
}

/// Lexicographic order of component lists.
pub open spec fn parts_lt(a: Seq<Seq<char>>, b: Seq<Seq<char>>) -> bool
    decreases a.len(),
{
    if b.len() == 0 {
        false
    } else if a.len() == 0 {
        true
    } else if a[0] != b[0] {
        part_lt(a[0], b[0])
    } else {
        parts_lt(a.skip(1), b.skip(1))
    }
}

/// The order of paths: component by component, so that a directory comes before a sibling
/// whose name merely extends its own.
pub open spec fn path_lt(a: Seq<char>, b: Seq<char>) -> bool {
    parts_lt(components_of(a), components_of(b))
}

pub open spec fn path_order() -> spec_fn(Seq<char>, Seq<char>) -> bool {
    |a: Seq<char>, b: Seq<char>| path_lt(a, b)
}

/// Whether `a` comes before `b`.
pub fn path_less(a: &str, b: &str) -> (r: bool)
    ensures
        r == path_lt(a@, b@),
{
    let x = components(a);
    let y = components(b);
    let ghost xs = texts(x@);
    let ghost ys = texts(y@);
    let mut i: usize = 0;
    proof {
        assert(xs.skip(0) =~= xs);
        assert(ys.skip(0) =~= ys);
    }
    while i < x.len() && i < y.len()
        invariant
            i <= x@.len(),
            i <= y@.len(),
            xs == texts(x@),
            ys == texts(y@),
            xs == components_of(a@),
            ys == components_of(b@),
            parts_lt(xs, ys) == parts_lt(xs.skip(i as int), ys.skip(i as int)),
        decreases x@.len() - i,
    {
        proof {
            assert(xs.skip(i as int)[0] == x@[i as int]@);
            assert(ys.skip(i as int)[0] == y@[i as int]@);
        }
        if !same_text(x[i].as_str(), y[i].as_str()) {
            let p: u8 = kind_of(x[i].as_str());
            let q: u8 = kind_of(y[i].as_str());
            return if p != q {
                p < q
            } else {
                text_less(x[i].as_str(), y[i].as_str())
            };
        }
        proof {
            assert(xs.skip(i as int).skip(1) =~= xs.skip(i + 1));
            assert(ys.skip(i as int).skip(1) =~= ys.skip(i + 1));
        }
        i = i + 1;
    }
    i < y.len()
}

/// Sorts paths in path order; equal ones keep their order.
pub fn sort_paths(list: &[String]) -> (r: Vec<String>)
    ensures
        texts(r@) == sort_stable(texts(list@), path_order()),
{
    let mut out: Vec<String> = Vec::new();
    let mut i: usize = 0;
    proof {
        assert(texts(list@).take(0) =~= Seq::<Seq<char>>::empty());
        assert(texts(out@) =~= Seq::<Seq<char>>::empty());
    }
    while i < list.len()
        invariant
            i <= list@.len(),
            texts(out@) == sort_stable(texts(list@).take(i as int), path_order()),
        decreases list@.len() - i,
    {
        let x = list[i].clone();
        let mut p: usize = out.len();
        while p > 0 && path_less(x.as_str(), out[p - 1].as_str())
            invariant
                p <= out@.len(),
                forall|j: int| p <= j < out@.len() ==> path_lt(x@, #[trigger] out@[j]@),
            decreases p,
        {
            p = p - 1;
        }
        proof {
            let before = texts(out@);
            assert forall|j: int| p <= j < before.len() implies path_order()(x@, before[j]) by {
                assert(before[j] == out@[j]@);
            }
            if p > 0 {
                assert(before[p - 1] == out@[p - 1]@);
            }
            lemma_insert_at(before, x@, path_order(), p as int);
            assert(texts(out@.insert(p as int, x)) =~= before.insert(p as int, x@));
            assert(texts(list@).take(i + 1).drop_last() =~= texts(list@).take(i as int));
            assert(texts(list@).take(i + 1).last() == x@);
        }
        out.insert(p, x);
        i = i + 1;
    }
    proof {
        assert(texts(list@).take(list@.len() as int) =~= texts(list@));
    }
    out
}

// ---- path specifications handed to git ----

/// Why a requested path is refused.
#[derive(Debug, Clone, Copy, PartialEq, Eq, Structural)]
pub enum PathError {
    /// The path starts at the root.
    Absolute,
    /// The path names a parent directory.
    ParentComponent,
    /// The resolved path lies outside the repository.
    OutsideRepository,
}

impl PathError {
    pub open spec fn text(self) -> Seq<char> {
        match self {
            PathError::Absolute => "Absolute paths not allowed"@,
            PathError::ParentComponent =>
                "Path traversal attempt blocked: '..' is not allowed in a pathspec"@,
            PathError::OutsideRepository =>
                "Path traversal attempt blocked: path is outside repository"@,
        }
    }

    /// The message shown to the caller.
    pub fn message(self) -> (r: String)
        ensures
            r@ == self.text(),
    {
        match self {
            PathError::Absolute => "Absolute paths not allowed".to_owned(),
            PathError::ParentComponent =>
                "Path traversal attempt blocked: '..' is not allowed in a pathspec".to_owned(),
            PathError::OutsideRepository =>
                "Path traversal attempt blocked: path is outside repository".to_owned(),
        }
    }
}

pub open spec fn validate_pathspec_spec(requested: Seq<char>) -> Result<(), PathError> {
    if is_absolute_spec(requested) {
        Err(PathError::Absolute)
    } else if components_of(requested).contains(".."@) {
        Err(PathError::ParentComponent)
    } else {
        Ok(())
    }
}

/// A repo-relative pathspec stays in the repo: it is not absolute and names no parent
/// directory. It need not exist.
pub fn validate_pathspec(requested: &str) -> (r: Result<(), PathError>)
    ensures
        r == validate_pathspec_spec(requested@),
{
    if is_absolute(requested) {
        return Err(PathError::Absolute);
    }
    let parts = components(requested);
    let mut i: usize = 0;
    while i < parts.len()
        invariant
            i <= parts@.len(),
            forall|j: int| 0 <= j < i ==> parts@[j]@ != ".."@,
            texts(parts@) == components_of(requested@),
            !is_absolute_spec(requested@),
        decreases parts@.len() - i,
    {
        if same_text(parts[i].as_str(), "..") {
            proof {
                assert(texts(parts@)[i as int] == ".."@);
            }
            return Err(PathError::ParentComponent);
        }
        i = i + 1;
    }
    proof {
        if texts(parts@).contains(".."@) {
            let k = choose|k: int| 0 <= k < texts(parts@).len() && texts(parts@)[k] == ".."@;
            assert(parts@[k]@ == ".."@);
        }
    }
    Ok(())
}

/// What `validate_path` decides once both paths have been resolved by the file system.
pub open spec fn validate_path_spec(
    requested: Seq<char>,
    canonical_root: Seq<char>,
    canonical_path: Seq<char>,
) -> Result<(), PathError> {
    if is_absolute_spec(requested) {
        Err(PathError::Absolute)
    } else if !is_under(canonical_path, canonical_root) {
        Err(PathError::OutsideRepository)
    } else {
        Ok(())
    }
}

/// A requested path is served only where its resolved form lies in the resolved
/// repository root.
pub fn validate_path(requested: &str, canonical_root: &str, canonical_path: &str) -> (r: Result<
    (),
    PathError,
>)
    ensures
        r == validate_path_spec(requested@, canonical_root@, canonical_path@),
{
    if is_absolute(requested) {
        Err(PathError::Absolute)
    } else if !under(canonical_path, canonical_root) {
        Err(PathError::OutsideRepository)
    } else {
        Ok(())
    }
}

/// An accepted pathspec never leaves the repository: seen from any root it resolves to
/// a path that begins with that root's own components.
pub proof fn law_accepted_pathspec_stays_inside(root: Seq<Seq<char>>, spec: Seq<Seq<char>>)
    requires
        !spec.contains(".."@),
    ensures
        normal_parts(root).is_prefix_of(normal_parts(root + spec)),
    decreases spec.len(),
{
    if spec.len() == 0 {
        assert(root + spec =~= root);
        assert(normal_parts(root) =~= normal_parts(root).subrange(
            0,
            normal_parts(root).len() as int,
        ));
    } else {
        let shorter = spec.drop_last();
        assert forall|i: int| 0 <= i < shorter.len() implies shorter[i] != ".."@ by {
            assert(spec[i] == shorter[i]);
        }
        assert(!shorter.contains(".."@));
        law_accepted_pathspec_stays_inside(root, shorter);
        assert((root + spec).drop_last() =~= root + shorter);
        assert((root + spec).last() == spec.last());
        assert(spec[spec.len() - 1] != ".."@);
        let a = normal_parts(root);
        let b = normal_parts(root + shorter);
        let c = normal_parts(root + spec);
        assert(a =~= b.subrange(0, a.len() as int));
        assert(c.subrange(0, a.len() as int) =~= b.subrange(0, a.len() as int));
    }
}

} // verus!
