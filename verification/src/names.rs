//! The rules that read an archive entry's name: which entry is the metadata
//! document, which entries are page images, which image is the cover, and
//! what content type an image is served under.

use vstd::prelude::*;
use crate::text::{chars_of, ends_with, folded_ends_with, folds_to, lower, lowered};

verus! {

/// The views of a list of strings.
pub open spec fn texts(names: Seq<String>) -> Seq<Seq<char>> {
    names.map_values(|s: String| s@)
}

/// An entry holds the metadata document when its name is `comicinfo.xml`
/// in any mixture of ASCII case.
pub open spec fn is_metadata_name(name: Seq<char>) -> bool {
    lowered(name) == "comicinfo.xml"@
}

/// The position of the last `c` in `s`.
pub open spec fn last_index_of(s: Seq<char>, c: char) -> Option<int>
    decreases s.len(),
{
    if s.len() == 0 {
        None
    } else if s.last() == c {
        Some(s.len() - 1)
    } else {
        last_index_of(s.drop_last(), c)
    }
}

/// Where the last `/`-separated component of `name` starts.
pub open spec fn component_start(name: Seq<char>) -> int {
    match last_index_of(name, '/') {
        Some(i) => i + 1,
        None => 0,
    }
}

/// The final component of a `/`-separated path: trailing separators and
/// trailing `.` components are passed over, and a path that ends in `..`
/// (or holds no component at all) has no file name.
pub open spec fn file_name(name: Seq<char>) -> Option<Seq<char>>
    decreases name.len(),
{
    if name.len() == 0 {
        None
    } else if name.last() == '/' {
        file_name(name.drop_last())
    } else {
        let part = name.subrange(component_start(name), name.len() as int);
        if part == seq!['.'] {
            file_name(name.drop_last())
        } else if part == seq!['.', '.'] {
            None
        } else {
            Some(part)
        }
    }
}

/// What follows the last dot of a file name, when something stands before
/// that dot.
pub open spec fn extension_of_file(file: Seq<char>) -> Option<Seq<char>> {
    match last_index_of(file, '.') {
        Some(dot) => if dot == 0 {
            None
        } else {
            Some(file.subrange(dot + 1, file.len() as int))
        },
        None => None,
    }
}

/// The extension of an entry name: that of its file name.
pub open spec fn extension(name: Seq<char>) -> Option<Seq<char>> {
    match file_name(name) {
        Some(file) => extension_of_file(file),
        None => None,
    }
}

/// The extensions that mark a page image, compared without regard to ASCII
/// case.
pub open spec fn is_image_extension(ext: Seq<char>) -> bool {
    let e = lowered(ext);
    e == "jpg"@ || e == "jpeg"@ || e == "png"@ || e == "gif"@ || e == "webp"@ || e == "bmp"@
}

/// An entry is a page image when its name has an image extension.
pub open spec fn is_image_name(name: Seq<char>) -> bool {
    match extension(name) {
        Some(ext) => is_image_extension(ext),
        None => false,
    }
}

/// The content type an image is served under. It goes by the end of the whole
/// name, and every name that matches none of the three suffixes is served as
/// JPEG, bitmap images among them.
pub open spec fn mime_type(name: Seq<char>) -> Seq<char> {
    let folded = lowered(name);
    if ends_with(folded, ".png"@) {
        "image/png"@
    } else if ends_with(folded, ".gif"@) {
        "image/gif"@
    } else if ends_with(folded, ".webp"@) {
        "image/webp"@
    } else {
        "image/jpeg"@
    }
}

/// How many of `names` are page images.
pub open spec fn image_count(names: Seq<Seq<char>>) -> nat
    decreases names.len(),
{
    if names.len() == 0 {
        0
    } else {
        image_count(names.drop_last()) + if is_image_name(names.last()) {
            1nat
        } else {
            0nat
        }
    }
}

/// Strict lexicographic order by code point: the order in which `a` sorts
/// before `b`. It is not a numeric order: `page10` sorts before `page2`.
pub open spec fn before(a: Seq<char>, b: Seq<char>) -> bool
    decreases a.len(),
{
    if b.len() == 0 {
        false
    } else if a.len() == 0 {
        true
    } else if a[0] != b[0] {
        a[0] < b[0]
    } else {
        before(a.drop_first(), b.drop_first())
    }
}

/// Entry `i` is the cover: it is an image, no image sorts before it, and of
/// images with the same name it is the first.
pub open spec fn is_cover(names: Seq<Seq<char>>, i: int) -> bool {
    &&& 0 <= i < names.len()
    &&& is_image_name(names[i])
    &&& forall|j: int|
        0 <= j < names.len() && is_image_name(#[trigger] names[j]) ==> !before(names[j], names[i])
    &&& forall|j: int|
        0 <= j < i && is_image_name(#[trigger] names[j]) ==> before(names[i], names[j])
}

/// Whether some entry is a page image.
pub open spec fn has_image(names: Seq<Seq<char>>) -> bool {
    exists|j: int| 0 <= j < names.len() && is_image_name(#[trigger] names[j])
}

/// The first entry that holds the metadata document.
pub open spec fn is_metadata_index(names: Seq<Seq<char>>, i: int) -> bool {
    &&& 0 <= i < names.len()
    &&& is_metadata_name(names[i])
    &&& forall|j: int| 0 <= j < i ==> !is_metadata_name(#[trigger] names[j])
}

/// The index of the cover, where there is one.
pub open spec fn cover_of(names: Seq<Seq<char>>) -> Option<int> {
    if exists|i: int| is_cover(names, i) {
        Some(choose|i: int| is_cover(names, i))
    } else {
        None
    }
}

/// The index of the first metadata entry, where there is one.
pub open spec fn metadata_of(names: Seq<Seq<char>>) -> Option<int> {
    if exists|i: int| is_metadata_index(names, i) {
        Some(choose|i: int| is_metadata_index(names, i))
    } else {
        None
    }
}

/// Whether some entry holds the metadata document.
pub open spec fn has_metadata(names: Seq<Seq<char>>) -> bool {
    exists|j: int| 0 <= j < names.len() && is_metadata_name(#[trigger] names[j])
}

/// Whether `name` names the metadata document.
pub fn is_metadata_entry(name: &str) -> (r: bool)
    ensures
        r == is_metadata_name(name@),
{
    let chars = chars_of(name);
    assert(chars@.subrange(0, chars.len() as int) == chars@);
    folds_to(&chars, 0, chars.len(), "comicinfo.xml")
}

/// Finds the last `c` in `chars[..end]`.
fn find_last(chars: &Vec<char>, end: usize, c: char) -> (r: Option<usize>)
    requires
        end <= chars.len(),
    ensures
        match r {
            Some(i) => i < end && chars@[i as int] == c && last_index_of(
                chars@.take(end as int),
                c,
            ) == Some(i as int),
            None => last_index_of(chars@.take(end as int), c) is None,
        },
{
    let mut i: usize = end;
    while i > 0
        invariant
            i <= end <= chars.len(),
            last_index_of(chars@.take(end as int), c) == last_index_of(chars@.take(i as int), c),
        decreases i,
    {
        assert(chars@.take(i as int).last() == chars@[i - 1]);
        assert(chars@.take(i as int).drop_last() == chars@.take(i - 1));
        if chars[i - 1] == c {
            return Some(i - 1);
        }
        i = i - 1;
    }
    None
}

/// The span of the file name inside `chars`.
fn file_name_span(chars: &Vec<char>) -> (r: Option<(usize, usize)>)
    ensures
        match r {
            Some((from, to)) => from < to <= chars.len() && file_name(chars@) == Some(
                chars@.subrange(from as int, to as int),
            ),
            None => file_name(chars@) is None,
        },
{
    let mut end: usize = chars.len();
    assert(chars@.take(end as int) == chars@);
    while end > 0
        invariant
            end <= chars.len(),
            file_name(chars@) == file_name(chars@.take(end as int)),
        decreases end,
    {
        let ghost head = chars@.take(end as int);
        assert(head.last() == chars@[end - 1]);
        assert(head.drop_last() == chars@.take(end - 1));
        if chars[end - 1] == '/' {
            end = end - 1;
        } else {
            let from: usize = match find_last(chars, end, '/') {
                Some(i) => i + 1,
                None => 0,
            };
            assert(from as int == component_start(head));
            assert(head.subrange(from as int, end as int) == chars@.subrange(
                from as int,
                end as int,
            ));
            let ghost part = chars@.subrange(from as int, end as int);
            if end - from == 1 && chars[from] == '.' {
                assert(part == seq!['.']);
                end = end - 1;
            } else if end - from == 2 && chars[from] == '.' && chars[from + 1] == '.' {
                assert(part == seq!['.', '.']);
                return None;
            } else {
                assert(part != seq!['.']) by {
                    if part == seq!['.'] {
                        assert(part.len() == 1);
                        assert(part[0] == '.');
                    }
                }
                assert(part != seq!['.', '.']) by {
                    if part == seq!['.', '.'] {
                        assert(part.len() == 2);
                        assert(part[0] == '.');
                        assert(part[1] == '.');
                    }
                }
                return Some((from, end));
            }
        }
    }
    None
}

/// The span of the extension inside `chars`.
pub fn extension_span(chars: &Vec<char>) -> (r: Option<(usize, usize)>)
    ensures
        match r {
            Some((from, to)) => from <= to <= chars.len() && extension(chars@) == Some(
                chars@.subrange(from as int, to as int),
            ),
            None => extension(chars@) is None,
        },
{
    match file_name_span(chars) {
        None => None,
        Some((from, to)) => {
            let ghost file = chars@.subrange(from as int, to as int);
            let mut i: usize = to;
            assert(file.take((i - from) as int) == file);
            while i > from
                invariant
                    from <= i <= to <= chars.len(),
                    file == chars@.subrange(from as int, to as int),
                    file_name(chars@) == Some(file),
                    last_index_of(file, '.') == last_index_of(file.take((i - from) as int), '.'),
                decreases i,
            {
                let ghost head = file.take((i - from) as int);
                assert(head.last() == chars@[i - 1]);
                assert(head.drop_last() == file.take((i - 1 - from) as int));
                if chars[i - 1] == '.' {
                    if i - 1 == from {
                        return None;
                    }
                    assert(file.subrange((i - 1 - from) + 1, file.len() as int) == chars@.subrange(
                        i as int,
                        to as int,
                    ));
                    return Some((i, to));
                }
                i = i - 1;
            }
            None
        },
    }
}

/// Whether `name` names a page image.
pub fn is_image_entry(name: &str) -> (r: bool)
    ensures
        r == is_image_name(name@),
{
    let chars = chars_of(name);
    match extension_span(&chars) {
        None => false,
        Some((from, to)) => {
            folds_to(&chars, from, to, "jpg") || folds_to(&chars, from, to, "jpeg") || folds_to(
                &chars,
                from,
                to,
                "png",
            ) || folds_to(&chars, from, to, "gif") || folds_to(&chars, from, to, "webp")
                || folds_to(&chars, from, to, "bmp")
        },
    }
}

/// The content type under which the image `name` is served.
pub fn mime_type_of(name: &str) -> (r: &'static str)
    ensures
        r@ == mime_type(name@),
{
    let chars = chars_of(name);
    if folded_ends_with(&chars, ".png") {
        "image/png"
    } else if folded_ends_with(&chars, ".gif") {
        "image/gif"
    } else if folded_ends_with(&chars, ".webp") {
        "image/webp"
    } else {
        "image/jpeg"
    }
}

/// Counts the page images among `names`.
pub fn count_images(names: &Vec<String>) -> (n: usize)
    ensures
        n == image_count(texts(names@)),
{
    let mut n: usize = 0;
    let mut i: usize = 0;
    assert(texts(names@).take(0) == Seq::<Seq<char>>::empty());
    while i < names.len()
        invariant
            i <= names.len(),
            n <= i,
            n == image_count(texts(names@).take(i as int)),
        decreases names.len() - i,
    {
        let ghost head = texts(names@).take(i + 1);
        assert(head.drop_last() == texts(names@).take(i as int));
        assert(head.last() == names@[i as int]@);
        if is_image_entry(names[i].as_str()) {
            n = n + 1;
        }
        i = i + 1;
    }
    assert(texts(names@).take(i as int) == texts(names@));
    n
}

/// Nothing sorts before itself.
pub proof fn lemma_before_irreflexive(a: Seq<char>)
    ensures
        !before(a, a),
    decreases a.len(),
{
    if a.len() > 0 {
        lemma_before_irreflexive(a.drop_first());
    }
}

/// Of two names at most one sorts before the other.
pub proof fn lemma_before_asymmetric(a: Seq<char>, b: Seq<char>)
    requires
        before(a, b),
    ensures
        !before(b, a),
    decreases a.len(),
{
    if a.len() > 0 && b.len() > 0 && a[0] == b[0] {
        lemma_before_asymmetric(a.drop_first(), b.drop_first());
    }
}

/// What sorts before `b` sorts before everything that `b` does not follow.
pub proof fn lemma_before_chain(a: Seq<char>, b: Seq<char>, c: Seq<char>)
    requires
        before(a, b),
        !before(c, b),
    ensures
        before(a, c),
    decreases a.len(),
{
    if a.len() > 0 && b.len() > 0 && c.len() > 0 && a[0] == b[0] && b[0] == c[0] {
        lemma_before_chain(a.drop_first(), b.drop_first(), c.drop_first());
    }
}

/// The order is transitive.
pub proof fn lemma_before_transitive(a: Seq<char>, b: Seq<char>, c: Seq<char>)
    requires
        before(a, b),
        before(b, c),
    ensures
        before(a, c),
{
    lemma_before_asymmetric(b, c);
    lemma_before_chain(a, b, c);
}

/// An archive has at most one cover.
pub proof fn lemma_cover_is_unique(names: Seq<Seq<char>>, i: int, j: int)
    requires
        is_cover(names, i),
        is_cover(names, j),
    ensures
        i == j,
{
    if i < j {
        assert(before(names[j], names[i]));
        assert(!before(names[j], names[i]));
    } else if j < i {
        assert(before(names[i], names[j]));
        assert(!before(names[i], names[j]));
    }
}

/// The last `c` of a text, where it has one, is a place in the text that
/// holds `c`.
proof fn lemma_last_index_in_range(s: Seq<char>, c: char)
    ensures
        last_index_of(s, c) matches Some(i) ==> 0 <= i < s.len() && s[i] == c,
    decreases s.len(),
{
    if s.len() > 0 && s.last() != c {
        lemma_last_index_in_range(s.drop_last(), c);
    }
}

/// Folding the case of a text moves none of its `c`, where `c` is a slash
/// or a dot.
proof fn lemma_last_index_of_lowered(s: Seq<char>, c: char)
    requires
        c == '/' || c == '.',
    ensures
        last_index_of(lowered(s), c) == last_index_of(s, c),
    decreases s.len(),
{
    if s.len() > 0 {
        lemma_last_index_of_lowered(s.drop_last(), c);
        assert(lowered(s).drop_last() =~= lowered(s.drop_last()));
    }
}

/// The file name of a folded name is the folded file name.
proof fn lemma_file_name_lowered(name: Seq<char>)
    ensures
        file_name(lowered(name)) == match file_name(name) {
            Some(file) => Some(lowered(file)),
            None => None,
        },
    decreases name.len(),
{
    if name.len() > 0 {
        let folded = lowered(name);
        lemma_file_name_lowered(name.drop_last());
        assert(folded.drop_last() =~= lowered(name.drop_last()));
        if name.last() != '/' {
            lemma_last_index_of_lowered(name, '/');
            lemma_last_index_in_range(name, '/');
            let start = component_start(name);
            let part = name.subrange(start, name.len() as int);
            let folded_part = folded.subrange(start, folded.len() as int);
            assert(folded_part =~= lowered(part));
            assert(part == seq!['.'] <==> folded_part == seq!['.']) by {
                if part == seq!['.'] {
                    assert(folded_part =~= seq!['.']);
                }
                if folded_part == seq!['.'] {
                    assert(part.len() == 1);
                    assert(lower(part[0]) == folded_part[0]);
                    assert(part =~= seq!['.']);
                }
            }
            assert(part == seq!['.', '.'] <==> folded_part == seq!['.', '.']) by {
                if part == seq!['.', '.'] {
                    assert(folded_part =~= seq!['.', '.']);
                }
                if folded_part == seq!['.', '.'] {
                    assert(part.len() == 2);
                    assert(lower(part[0]) == folded_part[0]);
                    assert(lower(part[1]) == folded_part[1]);
                    assert(part =~= seq!['.', '.']);
                }
            }
        }
    }
}

/// Whether an entry is a page image does not depend on the case of its
/// name: a name and its folded form are images together.
pub proof fn lemma_image_name_ignores_case(name: Seq<char>)
    ensures
        is_image_name(lowered(name)) == is_image_name(name),
{
    lemma_file_name_lowered(name);
    match file_name(name) {
        Some(file) => {
            lemma_last_index_of_lowered(file, '.');
            lemma_last_index_in_range(file, '.');
            match last_index_of(file, '.') {
                Some(dot) => {
                    let ext = file.subrange(dot + 1, file.len() as int);
                    let folded = lowered(file).subrange(dot + 1, file.len() as int);
                    assert(folded =~= lowered(ext));
                    assert(lowered(lowered(ext)) =~= lowered(ext));
                },
                None => {},
            }
        },
        None => {},
    }
}

/// The positions of the page images among `names`.
pub open spec fn image_indices(names: Seq<Seq<char>>) -> Set<int> {
    Set::new(|i: int| 0 <= i < names.len() && is_image_name(names[i]))
}

/// The count of page images is the number of entries with an image
/// extension, and so never more than the number of entries.
pub proof fn lemma_image_count_is_cardinality(names: Seq<Seq<char>>)
    ensures
        image_indices(names).finite(),
        image_count(names) == image_indices(names).len(),
        image_count(names) <= names.len(),
    decreases names.len(),
{
    if names.len() == 0 {
        assert(image_indices(names) =~= Set::<int>::empty());
    } else {
        let head = names.drop_last();
        lemma_image_count_is_cardinality(head);
        if is_image_name(names.last()) {
            assert(image_indices(names) =~= image_indices(head).insert(names.len() - 1));
        } else {
            assert(image_indices(names) =~= image_indices(head));
        }
    }
}

/// The cover of the first `k` entries, found as a scan finds it: entry by
/// entry, keeping the image that sorts first.
proof fn lemma_cover_of_prefix(names: Seq<Seq<char>>, k: int) -> (best: int)
    requires
        0 <= k <= names.len(),
        exists|j: int| 0 <= j < k && is_image_name(#[trigger] names[j]),
    ensures
        is_cover(names.take(k), best),
    decreases k,
{
    let seen = names.take(k - 1);
    let all = names.take(k);
    assert(forall|j: int| 0 <= j < k - 1 ==> seen[j] == all[j]);
    if exists|j: int| 0 <= j < k - 1 && is_image_name(#[trigger] names[j]) {
        let b = lemma_cover_of_prefix(names, k - 1);
        if is_image_name(names[k - 1]) && before(names[k - 1], names[b]) {
            assert forall|j: int| 0 <= j < all.len() && is_image_name(#[trigger] all[j]) implies !before(
                all[j],
                all[k - 1],
            ) by {
                if j < k - 1 {
                    assert(is_image_name(seen[j]));
                    if before(all[j], all[k - 1]) {
                        lemma_before_transitive(all[j], all[k - 1], all[b]);
                    }
                } else {
                    lemma_before_irreflexive(all[k - 1]);
                }
            }
            assert forall|j: int| 0 <= j < k - 1 && is_image_name(#[trigger] all[j]) implies before(
                all[k - 1],
                all[j],
            ) by {
                assert(is_image_name(seen[j]));
                lemma_before_chain(all[k - 1], all[b], all[j]);
            }
            k - 1
        } else {
            assert forall|j: int| 0 <= j < all.len() && is_image_name(#[trigger] all[j]) implies !before(
                all[j],
                all[b],
            ) by {
                if j < k - 1 {
                    assert(is_image_name(seen[j]));
                }
            }
            assert forall|j: int| 0 <= j < b && is_image_name(#[trigger] all[j]) implies before(
                all[b],
                all[j],
            ) by {
                assert(is_image_name(seen[j]));
            }
            b
        }
    } else {
        let j = choose|j: int| 0 <= j < k && is_image_name(#[trigger] names[j]);
        assert(j == k - 1);
        lemma_before_irreflexive(all[k - 1]);
        assert forall|i: int| 0 <= i < k - 1 implies !is_image_name(#[trigger] all[i]) by {
            assert(all[i] == names[i]);
        }
        k - 1
    }
}

/// An archive has a cover exactly when it holds a page image.
pub proof fn lemma_cover_iff_image(names: Seq<Seq<char>>)
    ensures
        cover_of(names) is Some <==> has_image(names),
        cover_of(names) matches Some(i) ==> is_cover(names, i),
{
    if has_image(names) {
        let best = lemma_cover_of_prefix(names, names.len() as int);
        assert(names.take(names.len() as int) == names);
    }
    if cover_of(names) is Some {
        let i = choose|i: int| is_cover(names, i);
        assert(is_image_name(names[i]));
    }
}

/// An archive has a first metadata entry exactly when it holds a metadata
/// entry.
pub proof fn lemma_metadata_iff_present(names: Seq<Seq<char>>)
    ensures
        metadata_of(names) is Some <==> has_metadata(names),
        metadata_of(names) matches Some(i) ==> is_metadata_index(names, i),
{
    if has_metadata(names) {
        let first = lemma_first_metadata(names, names.len() as int);
    }
    if metadata_of(names) is Some {
        let i = choose|i: int| is_metadata_index(names, i);
        assert(is_metadata_name(names[i]));
    }
}

/// The first metadata entry among the first `k` entries.
proof fn lemma_first_metadata(names: Seq<Seq<char>>, k: int) -> (first: int)
    requires
        0 <= k <= names.len(),
        exists|j: int| 0 <= j < k && is_metadata_name(#[trigger] names[j]),
    ensures
        first < k,
        is_metadata_index(names, first),
    decreases k,
{
    if exists|j: int| 0 <= j < k - 1 && is_metadata_name(#[trigger] names[j]) {
        lemma_first_metadata(names, k - 1)
    } else {
        let j = choose|j: int| 0 <= j < k && is_metadata_name(#[trigger] names[j]);
        assert(j == k - 1);
        k - 1
    }
}

/// Whether `a` sorts before `b`.
pub fn sorts_before(a: &str, b: &str) -> (r: bool)
    ensures
        r == before(a@, b@),
{
    let x = chars_of(a);
    let y = chars_of(b);
    let mut i: usize = 0;
    assert(x@.skip(0) == x@);
    assert(y@.skip(0) == y@);
    while i < x.len() && i < y.len()
        invariant
            i <= x.len(),
            i <= y.len(),
            x@ == a@,
            y@ == b@,
            before(a@, b@) == before(x@.skip(i as int), y@.skip(i as int)),
        decreases x.len() - i,
    {
        assert(x@.skip(i as int)[0] == x@[i as int]);
        assert(y@.skip(i as int)[0] == y@[i as int]);
        assert(x@.skip(i as int).drop_first() == x@.skip(i + 1));
        assert(y@.skip(i as int).drop_first() == y@.skip(i + 1));
        if x[i] != y[i] {
            return x[i] < y[i];
        }
        i = i + 1;
    }
    i < y.len()
}

/// The index of the cover: of the page images, the one whose name sorts
/// first.
pub fn cover_index(names: &Vec<String>) -> (r: Option<usize>)
    ensures
        match r {
            Some(i) => is_cover(texts(names@), i as int) && cover_of(texts(names@)) == Some(
                i as int,
            ),
            None => !has_image(texts(names@)) && cover_of(texts(names@)) is None,
        },
{
    let ghost all = texts(names@);
    let mut best: Option<usize> = None;
    let mut k: usize = 0;
    while k < names.len()
        invariant
            k <= names.len(),
            all == texts(names@),
            match best {
                Some(b) => b < k && is_cover(all.take(k as int), b as int),
                None => forall|j: int| 0 <= j < k ==> !is_image_name(#[trigger] all[j]),
            },
        decreases names.len() - k,
    {
        let ghost seen = all.take(k as int);
        let ghost next = all.take(k + 1);
        assert(forall|j: int| 0 <= j < k ==> seen[j] == next[j]);
        assert(next[k as int] == names@[k as int]@);
        if is_image_entry(names[k].as_str()) {
            match best {
                None => {
                    proof {
                        lemma_before_irreflexive(next[k as int]);
                    }
                    best = Some(k);
                },
                Some(b) => {
                    if sorts_before(names[k].as_str(), names[b].as_str()) {
                        assert forall|j: int|
                            0 <= j < next.len() && is_image_name(
                                #[trigger] next[j],
                            ) implies !before(next[j], next[k as int]) by {
                            if j < k {
                                assert(is_image_name(seen[j]));
                                if before(next[j], next[k as int]) {
                                    lemma_before_transitive(next[j], next[k as int], next[b as int]);
                                }
                            } else {
                                lemma_before_irreflexive(next[k as int]);
                            }
                        }
                        assert forall|j: int| 0 <= j < k && is_image_name(#[trigger] next[j]) implies before(
                            next[k as int],
                            next[j],
                        ) by {
                            assert(is_image_name(seen[j]));
                            lemma_before_chain(next[k as int], next[b as int], next[j]);
                        }
                        best = Some(k);
                    } else {
                        assert forall|j: int|
                            0 <= j < next.len() && is_image_name(
                                #[trigger] next[j],
                            ) implies !before(next[j], next[b as int]) by {
                            if j < k {
                                assert(is_image_name(seen[j]));
                            }
                        }
                        assert forall|j: int| 0 <= j < b && is_image_name(#[trigger] next[j]) implies before(
                            next[b as int],
                            next[j],
                        ) by {
                            assert(is_image_name(seen[j]));
                        }
                    }
                },
            }
        } else {
            match best {
                None => {},
                Some(b) => {
                    assert forall|j: int|
                        0 <= j < next.len() && is_image_name(#[trigger] next[j]) implies !before(
                        next[j],
                        next[b as int],
                    ) by {
                        assert(is_image_name(seen[j]));
                    }
                    assert forall|j: int| 0 <= j < b && is_image_name(#[trigger] next[j]) implies before(
                        next[b as int],
                        next[j],
                    ) by {
                        assert(is_image_name(seen[j]));
                    }
                },
            }
        }
        k = k + 1;
    }
    assert(all.take(k as int) == all);
    proof {
        match best {
            Some(b) => {
                lemma_cover_is_unique(all, b as int, choose|i: int| is_cover(all, i));
            },
            None => {
                assert forall|i: int| !is_cover(all, i) by {
                    if is_cover(all, i) {
                        assert(is_image_name(all[i]));
                    }
                }
            },
        }
    }
    best
}

/// The index of the first entry that holds the metadata document.
pub fn metadata_index(names: &Vec<String>) -> (r: Option<usize>)
    ensures
        match r {
            Some(i) => is_metadata_index(texts(names@), i as int) && metadata_of(texts(names@))
                == Some(i as int),
            None => !has_metadata(texts(names@)) && metadata_of(texts(names@)) is None,
        },
{
    let ghost all = texts(names@);
    let mut k: usize = 0;
    while k < names.len()
        invariant
            k <= names.len(),
            all == texts(names@),
            forall|j: int| 0 <= j < k ==> !is_metadata_name(#[trigger] all[j]),
        decreases names.len() - k,
    {
        if is_metadata_entry(names[k].as_str()) {
            proof {
                let other = choose|i: int| is_metadata_index(all, i);
                assert(is_metadata_index(all, k as int));
                if other < k {
                    assert(!is_metadata_name(all[other]));
                } else if k < other {
                    assert(!is_metadata_name(all[k as int]));
                }
            }
            return Some(k);
        }
        k = k + 1;
    }
    proof {
        assert forall|i: int| !is_metadata_index(all, i) by {
            if is_metadata_index(all, i) {
                assert(!is_metadata_name(all[i]));
            }
        }
    }
    None
}

} // verus!
