//! Small choices of the user interface: which dropdown row shows a stored
//! device or buffer size, which file the previous/next buttons step to, and
//! when those buttons are usable.

use vstd::prelude::*;
use vstd::arithmetic::div_mod::{
    lemma_fundamental_div_mod, lemma_fundamental_div_mod_converse_mod,
};
use crate::paths::{components_of, path_components, same_strings};
use crate::text::{
    chars_less, chars_of, eq_ignore_ascii_case, last_index_of_char, lemma_lex_irreflexive,
    lemma_lex_total, lemma_lex_transitive, lex_lt, rfind_char, same_chars,
    tail_eq_ignore_ascii_case, views,
};

verus! {

/// Index of the first occurrence of `x` in `s`, or `s.len()` when there is none.
pub open spec fn first_index<A>(s: Seq<A>, x: A) -> int
    decreases s.len(),
{
    if s.len() == 0 {
        0
    } else if s[0] == x {
        0
    } else {
        1 + first_index(s.drop_first(), x)
    }
}

/// `first_index` is the first position holding `x`, or the length when none does.
pub proof fn lemma_first_index<A>(s: Seq<A>, x: A)
    ensures
        0 <= first_index(s, x) <= s.len(),
        forall|j: int| 0 <= j < first_index(s, x) ==> s[j] != x,
        first_index(s, x) < s.len() ==> s[first_index(s, x)] == x,
        first_index(s, x) < s.len() <==> s.contains(x),
    decreases s.len(),
{
    if s.len() > 0 && s[0] != x {
        let t = s.drop_first();
        lemma_first_index(t, x);
        assert forall|j: int| 0 <= j < first_index(s, x) implies s[j] != x by {
            if j > 0 {
                assert(s[j] == t[j - 1]);
            }
        }
        if s.contains(x) {
            let k = choose|k: int| 0 <= k < s.len() && s[k] == x;
            assert(t[k - 1] == x);
        }
        if t.contains(x) {
            let k = choose|k: int| 0 <= k < t.len() && t[k] == x;
            assert(s[k + 1] == x);
        }
    } else if s.len() > 0 {
        assert(s.contains(x) <==> true) by {
            assert(s[0] == x);
        }
    }
}

proof fn lemma_first_index_at<A>(s: Seq<A>, x: A, k: int)
    requires
        0 <= k <= s.len(),
        forall|j: int| 0 <= j < k ==> s[j] != x,
        k == s.len() || s[k] == x,
    ensures
        first_index(s, x) == k,
    decreases s.len(),
{
    if s.len() > 0 && k > 0 {
        let t = s.drop_first();
        assert forall|j: int| 0 <= j < k - 1 implies t[j] != x by {
            assert(t[j] == s[j + 1]);
        }
        lemma_first_index_at(t, x, k - 1);
    }
}

/// Position of the first string in `v` equal to `target`, or `v.len()`.
fn position_of(v: &Vec<String>, target: &str) -> (i: usize)
    ensures
        i == first_index(views(v@), target@),
        i <= v@.len(),
{
    proof {
        lemma_first_index(views(v@), target@);
    }
    let t = chars_of(target);
    let n = v.len();
    let mut i: usize = 0;
    while i < n
        invariant
            n == v@.len(),
            i <= n,
            t@ == target@,
            forall|j: int| 0 <= j < i ==> views(v@)[j] != target@,
        decreases n - i,
    {
        let c = chars_of(v[i].as_str());
        if same_chars(&c, &t) {
            proof {
                lemma_first_index_at(views(v@), target@, i as int);
            }
            return i;
        }
        i = i + 1;
    }
    proof {
        lemma_first_index_at(views(v@), target@, n as int);
    }
    n
}

/// The dropdown row of a stored device name: row 0 is "None" (an empty name or
/// one not in the list), and device `i` of the list is row `i + 1`.
pub open spec fn device_row(current: Seq<char>, devices: Seq<Seq<char>>) -> int {
    if current.len() == 0 || first_index(devices, current) >= devices.len() {
        0
    } else {
        first_index(devices, current) + 1
    }
}

/// The dropdown row that shows `current` among `devices` (0 for none).
pub fn selected_index(current: &str, devices: &Vec<String>) -> (row: u32)
    requires
        devices@.len() < u32::MAX,
    ensures
        row == device_row(current@, views(devices@)),
{
    if current.is_empty() {
        return 0;
    }
    let i = position_of(devices, current);
    if i == devices.len() {
        0
    } else {
        i as u32 + 1
    }
}

/// A stored path, where the empty string means that none is set.
pub fn optional_path(stored: &str) -> (r: Option<String>)
    ensures
        stored@.len() == 0 ==> r is None,
        stored@.len() > 0 ==> (r matches Some(s) && s@ == stored@),
{
    if stored.is_empty() {
        None
    } else {
        Some(stored.to_owned())
    }
}

/// The buffer sizes (in frames) offered in the settings.
pub open spec fn buffer_sizes() -> Seq<u32> {
    seq![16u32, 32, 64, 128, 192, 256, 320, 384, 448, 512]
}

/// The row of the default buffer size, 256 frames.
pub open spec fn default_buffer_row() -> int {
    5
}

/// The dropdown row that shows a stored buffer size; sizes not on offer show
/// the default of 256 frames.
pub open spec fn buffer_row(frames: i32) -> int {
    if frames >= 0 && first_index(buffer_sizes(), frames as u32) < buffer_sizes().len() {
        first_index(buffer_sizes(), frames as u32)
    } else {
        default_buffer_row()
    }
}

const BUFFER_SIZES: [u32; 10] = [16, 32, 64, 128, 192, 256, 320, 384, 448, 512];

/// The dropdown row for a stored buffer size.
pub fn buffer_size_index(frames: i32) -> (row: u32)
    ensures
        row == buffer_row(frames),
{
    let sizes = BUFFER_SIZES;
    assert(sizes@ =~= buffer_sizes());
    if frames >= 0 {
        let mut i: usize = 0;
        while i < 10
            invariant
                i <= 10,
                sizes@ == buffer_sizes(),
                frames >= 0,
                forall|j: int| 0 <= j < i ==> buffer_sizes()[j] != frames as u32,
            decreases 10 - i,
        {
            if sizes[i] as i32 == frames {
                proof {
                    lemma_first_index_at(buffer_sizes(), frames as u32, i as int);
                }
                return i as u32;
            }
            i = i + 1;
        }
        proof {
            lemma_first_index_at(buffer_sizes(), frames as u32, 10);
        }
    }
    5
}

/// The buffer size shown on a dropdown row, if there is such a row.
pub fn buffer_size_at(row: u32) -> (frames: Option<u32>)
    ensures
        row < buffer_sizes().len() ==> frames == Some(buffer_sizes()[row as int]),
        row >= buffer_sizes().len() ==> frames is None,
{
    let sizes = BUFFER_SIZES;
    assert(sizes@ =~= buffer_sizes());
    if row < 10 {
        Some(sizes[row as usize])
    } else {
        None
    }
}

/// Choosing a row and reading it back gives the same row, and storing an
/// offered size and showing it gives the same size.
pub proof fn lemma_buffer_round_trip(row: u32, frames: i32)
    ensures
        row < buffer_sizes().len() ==> buffer_row(buffer_sizes()[row as int] as i32) == row,
        buffer_row(frames) < buffer_sizes().len(),
        frames >= 0 && buffer_sizes().contains(frames as u32) ==> buffer_sizes()[buffer_row(
            frames,
        )] == frames,
{
    lemma_first_index(buffer_sizes(), frames as u32);
    if row < buffer_sizes().len() {
        let f = buffer_sizes()[row as int];
        assert(f as i32 as u32 == f);
        assert forall|j: int| 0 <= j < row implies buffer_sizes()[j] != f by {}
        lemma_first_index_at(buffer_sizes(), f, row as int);
    }
}

/// The components of each path of a list.
pub open spec fn component_lists(files: Seq<Seq<char>>) -> Seq<Seq<Seq<char>>> {
    files.map_values(|p: Seq<char>| path_components(p))
}

/// Position of the first file in `files` that names the same path as
/// `current`, compared component by component; `files.len()` when none does.
pub open spec fn file_index(files: Seq<Seq<char>>, current: Seq<char>) -> int {
    first_index(component_lists(files), path_components(current))
}

/// Position of the first path in `v` that names the same path as `target`.
fn path_position(v: &Vec<String>, target: &str) -> (i: usize)
    ensures
        i == file_index(views(v@), target@),
{
    let ghost cs = component_lists(views(v@));
    let ghost tc = path_components(target@);
    proof {
        lemma_first_index(cs, tc);
    }
    let t = components_of(target);
    let n = v.len();
    let mut i: usize = 0;
    while i < n
        invariant
            n == v@.len(),
            i <= n,
            views(t@) == tc,
            tc == path_components(target@),
            cs == component_lists(views(v@)),
            cs.len() == n,
            forall|j: int| 0 <= j < i ==> cs[j] != tc,
        decreases n - i,
    {
        let c = components_of(v[i].as_str());
        assert(views(v@)[i as int] == v@[i as int]@);
        assert(cs[i as int] == path_components(views(v@)[i as int]));
        if same_strings(&c, &t) {
            proof {
                assert(cs[i as int] == tc);
                lemma_first_index_at(cs, tc, i as int);
            }
            return i;
        }
        assert(cs[i as int] != tc);
        i = i + 1;
    }
    proof {
        lemma_first_index_at(cs, tc, n as int);
    }
    n
}

/// The file `offset` places away from `current` in the sorted sibling list
/// `files`, wrapping around at either end; none when the list is empty or
/// holds no file naming the same path as `current`.
pub open spec fn sibling_of(files: Seq<Seq<char>>, current: Seq<char>, offset: int) -> Option<
    Seq<char>,
> {
    let i = file_index(files, current);
    if files.len() == 0 || i >= files.len() {
        None
    } else {
        Some(files[(i + offset) % (files.len() as int)])
    }
}

/// `(i + offset) mod len`, computed without overflow.
fn wrap_index(i: usize, offset: isize, len: usize) -> (r: usize)
    requires
        0 < len,
        i < len,
    ensures
        r as int == (i + offset) % (len as int),
{
    let ghost x = i + offset;
    let m: usize;
    if offset >= 0 {
        let o = offset as usize;
        let a = o % len;
        proof {
            lemma_fundamental_div_mod(o as int, len as int);
        }
        m = a;
        let ghost q = (o / len) as int;
        assert(x == q * len + i + a) by (nonlinear_arith)
            requires
                x == i + offset,
                o == offset,
                o == len * q + a,
        ;
        if i >= len - a {
            let r = i - (len - a);
            assert(x == (q + 1) * len + r) by (nonlinear_arith)
                requires
                    x == q * len + i + a,
                    r == i - (len - a),
            ;
            proof {
                lemma_fundamental_div_mod_converse_mod(x, len as int, q + 1, r as int);
            }
            return r;
        } else {
            let r = i + a;
            proof {
                lemma_fundamental_div_mod_converse_mod(x, len as int, q, r as int);
            }
            return r;
        }
    } else {
        let k = (-(offset + 1)) as usize;
        let a = k % len;
        proof {
            lemma_fundamental_div_mod(k as int, len as int);
        }
        m = len - 1 - a;
        let ghost q = (k / len) as int;
        assert(x == i + m - (q + 1) * len) by (nonlinear_arith)
            requires
                x == i + offset,
                k == -(offset + 1),
                k == len * q + a,
                m == len - 1 - a,
        ;
        if i >= len - m {
            let r = i - (len - m);
            assert(x == (-q) * len + r) by (nonlinear_arith)
                requires
                    x == i + m - (q + 1) * len,
                    r == i - (len - m),
            ;
            proof {
                lemma_fundamental_div_mod_converse_mod(x, len as int, -q, r as int);
            }
            return r;
        } else {
            let r = i + m;
            assert(x == (-(q + 1)) * len + r) by (nonlinear_arith)
                requires
                    x == i + m - (q + 1) * len,
                    r == i + m,
            ;
            proof {
                lemma_fundamental_div_mod_converse_mod(x, len as int, -(q + 1), r as int);
            }
            return r;
        }
    }
}

/// The sibling file `offset` places from `current` in `files` (the sorted
/// files of its folder with the same extension), wrapping around; `current`
/// is found by path components, so `/x//a.nam` finds `/x/a.nam`.
pub fn sibling_path(files: &Vec<String>, current: &str, offset: isize) -> (r: Option<String>)
    ensures
        r matches Some(s) ==> sibling_of(views(files@), current@, offset as int) == Some(s@),
        r is None ==> sibling_of(views(files@), current@, offset as int) is None,
{
    if files.len() == 0 {
        return None;
    }
    let i = path_position(files, current);
    proof {
        lemma_first_index(component_lists(views(files@)), path_components(current@));
    }
    if i == files.len() {
        return None;
    }
    let j = wrap_index(i, offset, files.len());
    Some(files[j].clone())
}

/// Whether the previous/next buttons of a file row are usable: a file is set,
/// a listed file names the same path, and it has at least one sibling.
pub open spec fn nav_usable(path: Seq<char>, files: Seq<Seq<char>>) -> bool {
    path.len() > 0 && file_index(files, path) < files.len() && files.len() > 1
}

/// Whether the previous/next buttons of a file row should be usable.
pub fn nav_enabled(path: &str, files: &Vec<String>) -> (b: bool)
    ensures
        b == nav_usable(path@, views(files@)),
{
    if path.is_empty() {
        return false;
    }
    let i = path_position(files, path);
    proof {
        lemma_first_index(component_lists(views(files@)), path_components(path@));
    }
    i < files.len() && files.len() > 1
}

/// Stepping to the next file and then back to the previous one returns to the
/// listed file that names the starting path, when no two listed files name the
/// same path; when the start is spelled as listed, it returns the start itself.
pub proof fn lemma_sibling_round_trip(files: Seq<Seq<char>>, current: Seq<char>)
    requires
        file_index(files, current) < files.len(),
        forall|a: int, b: int|
            0 <= a < b < files.len() ==> path_components(#[trigger] files[a]) != path_components(
                #[trigger] files[b],
            ),
    ensures
        sibling_of(files, current, 1) matches Some(next) && sibling_of(files, next, -1) == Some(
            files[file_index(files, current)],
        ),
        files.contains(current) ==> (sibling_of(files, current, 1) matches Some(next)
            && sibling_of(files, next, -1) == Some(current)),
{
    let cs = component_lists(files);
    let tc = path_components(current);
    lemma_first_index(cs, tc);
    let n = files.len() as int;
    let i = file_index(files, current);
    let j = (i + 1) % n;
    if i + 1 < n {
        lemma_fundamental_div_mod_converse_mod(i + 1, n, 0, i + 1);
    } else {
        lemma_fundamental_div_mod_converse_mod(i + 1, n, 1, 0);
    }
    let next = files[j];
    assert forall|k: int| 0 <= k < j implies cs[k] != path_components(next) by {
        assert(cs[k] == path_components(files[k]));
    }
    lemma_first_index_at(cs, path_components(next), j);
    if j == 0 {
        lemma_fundamental_div_mod_converse_mod(j - 1, n, -1, n - 1);
    } else {
        lemma_fundamental_div_mod_converse_mod(j - 1, n, 0, j - 1);
    }
    if files.contains(current) {
        let k = choose|k: int| 0 <= k < files.len() && files[k] == current;
        assert(cs[k] == tc);
        if i != k {
            assert(cs[i] == tc);
            if i < k {
                assert(path_components(files[i]) != path_components(files[k]));
            } else {
                assert(path_components(files[k]) != path_components(files[i]));
            }
        }
    }
}

/// The file name of a directory entry's path: the text after its last `/`.
pub open spec fn entry_name(p: Seq<char>) -> Seq<char> {
    p.skip(last_index_of_char(p, '/') + 1)
}

/// The extension of a file name: the text after its last `.`, unless there
/// is no `.` or the only one starts the name.
pub open spec fn extension_of(name: Seq<char>) -> Option<Seq<char>> {
    let d = last_index_of_char(name, '.');
    if d <= 0 {
        None
    } else {
        Some(name.skip(d + 1))
    }
}

/// Whether a directory entry's extension is `suffix`, ignoring ASCII case.
pub open spec fn has_extension(suffix: Seq<char>) -> spec_fn(Seq<char>) -> bool {
    |p: Seq<char>|
        extension_of(entry_name(p)) matches Some(e) && eq_ignore_ascii_case(e, suffix)
}

/// Paths in non-decreasing code-point lexicographic order.
pub open spec fn sorted_paths(s: Seq<Seq<char>>) -> bool {
    forall|i: int, j: int| 0 <= i < j < s.len() ==> !lex_lt(s[j], s[i])
}

/// Whether the entry with characters `c` has extension `suffix`.
fn entry_matches(c: &Vec<char>, suffix: &Vec<char>) -> (b: bool)
    ensures
        b == has_extension(suffix@)(c@),
{
    let start = rfind_char(c, '/');
    let ghost name = c@.skip(start as int);
    proof {
        crate::text::lemma_last_index_of_char_bounds(c@, '/');
    }
    let mut k = c.len();
    while k > start && c[k - 1] != '.'
        invariant
            start <= k <= c@.len(),
            name == c@.skip(start as int),
            forall|j: int| k <= j < c@.len() ==> c@[j] != '.',
        decreases k,
    {
        k = k - 1;
    }
    proof {
        assert forall|j: int| k - start - 1 < j < name.len() implies name[j] != '.' by {
            assert(name[j] == c@[start + j]);
        }
        if k > start {
            assert(name[k - start - 1] == c@[k - 1]);
        }
        crate::text::lemma_last_index_of_char_at(name, '.', k - start - 1);
    }
    if k - start <= 1 {
        return false;
    }
    assert(name.skip(k - start) =~= c@.skip(k as int));
    tail_eq_ignore_ascii_case(c, k, suffix)
}

/// The directory entries (paths within one folder) whose extension is
/// `suffix`, ignoring ASCII case, sorted by path; `.NAM` files count as `.nam`.
pub fn sibling_files(entries: &Vec<String>, suffix: &str) -> (r: Vec<String>)
    ensures
        sorted_paths(views(r@)),
        views(r@).to_multiset() == views(entries@).filter(has_extension(suffix@)).to_multiset(),
{
    broadcast use vstd::seq_lib::group_to_multiset_ensures;

    let sc = chars_of(suffix);
    let ghost pred = has_extension(suffix@);
    let mut r: Vec<String> = Vec::new();
    let n = entries.len();
    proof {
        assert(views(entries@).take(0) =~= Seq::<Seq<char>>::empty());
        assert(views(r@) =~= Seq::<Seq<char>>::empty());
        reveal(Seq::filter);
    }
    for i in 0..n
        invariant
            n == entries@.len(),
            sc@ == suffix@,
            pred == has_extension(suffix@),
            sorted_paths(views(r@)),
            views(r@).to_multiset() == views(entries@).take(i as int).filter(pred).to_multiset(),
    {
        proof {
            assert(views(entries@).take(i + 1) =~= views(entries@).take(i as int).push(
                entries@[i as int]@,
            ));
            views(entries@).take(i as int).lemma_filter_push(entries@[i as int]@, pred);
        }
        let c = chars_of(entries[i].as_str());
        if entry_matches(&c, &sc) {
            let ghost old_r = views(r@);
            let mut pos: usize = 0;
            let mut stop = false;
            while !stop && pos < r.len()
                invariant
                    pos <= r@.len(),
                    old_r == views(r@),
                    forall|j: int| 0 <= j < pos ==> !lex_lt(c@, old_r[j]),
                    stop ==> pos < r@.len() && lex_lt(c@, old_r[pos as int]),
                decreases r@.len() - pos + (if stop { 0int } else { 1int }),
            {
                let rc = chars_of(r[pos].as_str());
                if chars_less(&c, &rc) {
                    stop = true;
                } else {
                    pos = pos + 1;
                }
            }
            proof {
                lemma_insert_sorted_path(old_r, pos as int, c@);
            }
            let item = entries[i].clone();
            r.insert(pos, item);
            assert(views(r@) =~= old_r.insert(pos as int, c@));
            assert(pred(c@));
            proof {
                vstd::seq_lib::to_multiset_insert(old_r, pos as int, c@);
                vstd::seq_lib::to_multiset_build(
                    views(entries@).take(i as int).filter(pred),
                    c@,
                );
            }
            assert(views(entries@).take(i + 1).filter(pred) == views(entries@).take(
                i as int,
            ).filter(pred).push(c@));
        } else {
            assert(!pred(c@));
        }
    }
    assert(views(entries@).take(n as int) =~= views(entries@));
    r
}

proof fn lemma_insert_sorted_path(r: Seq<Seq<char>>, pos: int, x: Seq<char>)
    requires
        sorted_paths(r),
        0 <= pos <= r.len(),
        forall|j: int| 0 <= j < pos ==> !lex_lt(x, r[j]),
        pos < r.len() ==> lex_lt(x, r[pos]),
    ensures
        sorted_paths(r.insert(pos, x)),
{
    let r2 = r.insert(pos, x);
    assert forall|j: int| pos <= j < r.len() implies lex_lt(x, r[j]) by {
        if j > pos && r[pos] != r[j] {
            lemma_lex_total(r[pos], r[j]);
            lemma_lex_transitive(x, r[pos], r[j]);
        }
    }
    assert forall|i: int, j: int| 0 <= i < j < r2.len() implies !lex_lt(r2[j], r2[i]) by {
        if i == pos {
            assert(lex_lt(x, r[j - 1]));
            if lex_lt(r[j - 1], x) {
                lemma_lex_transitive(x, r[j - 1], x);
                lemma_lex_irreflexive(x);
            }
        } else if j == pos {
        } else if i < pos && j > pos {
            assert(r2[j] == r[j - 1]);
        } else if i > pos {
            assert(r2[i] == r[i - 1]);
            assert(r2[j] == r[j - 1]);
        }
    }
}

} // verus!
