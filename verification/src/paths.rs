//! Path equality by components, as `std::path::Path` compares Unix paths:
//! repeated `/` count once, `.` components vanish except a leading one, and
//! a trailing `/` changes nothing.

use vstd::prelude::*;
use crate::text::{chars_of, index_of_char, lemma_index_of_char_at, same_text, substring, views};

verus! {

/// The pieces of `s` between its `/` characters, empty pieces included.
pub open spec fn segments(s: Seq<char>) -> Seq<Seq<char>>
    decreases s.len(),
{
    let i = index_of_char(s, '/');
    if 0 <= i < s.len() {
        seq![s.take(i)] + segments(s.skip(i + 1))
    } else {
        seq![s]
    }
}

/// A piece that names a component of its own: neither empty nor `.`.
pub open spec fn is_named_part(seg: Seq<char>) -> bool {
    seg.len() > 0 && seg != seq!['.']
}

/// Whether the path starts at the root directory.
pub open spec fn has_root(s: Seq<char>) -> bool {
    s.len() > 0 && s[0] == '/'
}

/// Whether a relative path starts with the current-directory component `.`.
pub open spec fn leading_cur_dir(s: Seq<char>) -> bool {
    s.len() > 0 && s[0] == '.' && (s.len() == 1 || s[1] == '/')
}

/// The pieces of a list that name components.
pub open spec fn named_parts(segs: Seq<Seq<char>>) -> Seq<Seq<char>> {
    segs.filter(|seg: Seq<char>| is_named_part(seg))
}

/// The root and leading current-directory components of a path.
pub open spec fn head_components(s: Seq<char>) -> Seq<Seq<char>> {
    (if has_root(s) {
        seq![seq!['/']]
    } else {
        Seq::empty()
    }) + (if leading_cur_dir(s) {
        seq![seq!['.']]
    } else {
        Seq::empty()
    })
}

/// The components of a path: `/` for the root, `.` for a leading current
/// directory, then the named pieces in order.
pub open spec fn path_components(s: Seq<char>) -> Seq<Seq<char>> {
    head_components(s) + named_parts(segments(s))
}

/// Whether two paths name the same path, component by component.
pub open spec fn same_path_spec(a: Seq<char>, b: Seq<char>) -> bool {
    path_components(a) == path_components(b)
}

proof fn lemma_segments_step(s: Seq<char>, k: int)
    requires
        0 <= k < s.len(),
        s[k] == '/',
        forall|j: int| 0 <= j < k ==> #[trigger] s[j] != '/',
    ensures
        segments(s) == seq![s.take(k)] + segments(s.skip(k + 1)),
{
    lemma_index_of_char_at(s, '/', k);
}

proof fn lemma_segments_last(s: Seq<char>)
    requires
        forall|j: int| 0 <= j < s.len() ==> #[trigger] s[j] != '/',
    ensures
        segments(s) == seq![s],
{
    lemma_index_of_char_at(s, '/', s.len() as int);
}

proof fn lemma_named_push(head: Seq<Seq<char>>, done: Seq<Seq<char>>, seg: Seq<char>)
    ensures
        head + named_parts(done.push(seg)) == if is_named_part(seg) {
            (head + named_parts(done)).push(seg)
        } else {
            head + named_parts(done)
        },
{
    let keep = |x: Seq<char>| is_named_part(x);
    done.lemma_filter_push(seg, keep);
    if is_named_part(seg) {
        assert(head + named_parts(done.push(seg)) =~= (head + named_parts(done)).push(seg));
    }
}

/// The piece `s[a..b]` when it names a component.
fn named_piece(s: &str, pc: &Vec<char>, a: usize, b: usize) -> (p: Option<String>)
    requires
        pc@ == s@,
        a <= b <= pc@.len(),
    ensures
        p matches Some(x) ==> is_named_part(pc@.subrange(a as int, b as int)) && x@
            == pc@.subrange(a as int, b as int),
        p is None ==> !is_named_part(pc@.subrange(a as int, b as int)),
{
    let ghost seg = pc@.subrange(a as int, b as int);
    if b == a {
        return None;
    }
    if b == a + 1 && pc[a] == '.' {
        assert(seg =~= seq!['.']);
        return None;
    }
    proof {
        if b == a + 1 {
            assert(seg[0] != '.');
        }
        assert(seg.len() != 1 ==> seg != seq!['.']);
    }
    Some(substring(s, a, b))
}

/// The root and leading current-directory components of `s`.
fn head_of(s: &str, pc: &Vec<char>) -> (r: Vec<String>)
    requires
        pc@ == s@,
    ensures
        views(r@) == head_components(s@),
{
    let n = pc.len();
    let mut r: Vec<String> = Vec::new();
    if n > 0 && pc[0] == '/' {
        r.push(substring(s, 0, 1));
    }
    if n > 0 && pc[0] == '.' && (n == 1 || pc[1] == '/') {
        r.push(substring(s, 0, 1));
    }
    proof {
        if n > 0 {
            assert(s@.subrange(0, 1) =~= seq![s@[0]]);
        }
        assert(views(r@) =~= head_components(s@));
    }
    r
}

/// The components of `s`, each as a string.
pub fn components_of(s: &str) -> (r: Vec<String>)
    ensures
        views(r@) == path_components(s@),
{
    let pc = chars_of(s);
    let n = pc.len();
    let mut r = head_of(s, &pc);
    let ghost head = head_components(s@);
    let ghost mut done: Seq<Seq<char>> = Seq::empty();
    let mut start: usize = 0;
    let mut j: usize = 0;
    assert(pc@.skip(0) =~= pc@);
    assert(named_parts(done) =~= Seq::<Seq<char>>::empty());
    assert(views(r@) =~= head + named_parts(done));
    while j < n
        invariant
            n == pc@.len(),
            pc@ == s@,
            start <= j <= n,
            forall|k: int| start <= k < j ==> #[trigger] pc@[k] != '/',
            segments(s@) == done + segments(pc@.skip(start as int)),
            views(r@) == head + named_parts(done),
        decreases n - j,
    {
        if pc[j] == '/' {
            let ghost seg = pc@.subrange(start as int, j as int);
            proof {
                let t = pc@.skip(start as int);
                assert forall|k: int| 0 <= k < j - start implies #[trigger] t[k] != '/' by {
                    assert(t[k] == pc@[start + k]);
                }
                lemma_segments_step(t, j - start);
                assert(t.take(j - start) =~= seg);
                assert(t.skip(j - start + 1) =~= pc@.skip(j + 1));
                lemma_named_push(head, done, seg);
            }
            let ghost old_r = r@;
            match named_piece(s, &pc, start, j) {
                Some(piece) => {
                    r.push(piece);
                    assert(views(r@) =~= views(old_r).push(seg));
                },
                None => {},
            }
            proof {
                assert(done.push(seg) + segments(pc@.skip(j + 1)) =~= done + (seq![seg]
                    + segments(pc@.skip(j + 1))));
                done = done.push(seg);
            }
            start = j + 1;
        }
        j = j + 1;
    }
    let ghost seg = pc@.subrange(start as int, n as int);
    proof {
        let t = pc@.skip(start as int);
        assert forall|k: int| 0 <= k < t.len() implies #[trigger] t[k] != '/' by {
            assert(t[k] == pc@[start + k]);
        }
        lemma_segments_last(t);
        assert(t =~= seg);
        lemma_named_push(head, done, seg);
    }
    let ghost old_r = r@;
    match named_piece(s, &pc, start, n) {
        Some(piece) => {
            r.push(piece);
            assert(views(r@) =~= views(old_r).push(seg));
        },
        None => {},
    }
    proof {
        assert(done + seq![seg] =~= done.push(seg));
        done = done.push(seg);
    }
    r
}

/// Whether two lists of strings hold the same strings in the same order.
pub fn same_strings(a: &Vec<String>, b: &Vec<String>) -> (r: bool)
    ensures
        r == (views(a@) == views(b@)),
{
    if a.len() != b.len() {
        assert(views(a@).len() != views(b@).len());
        return false;
    }
    let n = a.len();
    for i in 0..n
        invariant
            n == a@.len(),
            n == b@.len(),
            forall|k: int| 0 <= k < i ==> views(a@)[k] == views(b@)[k],
    {
        if !same_text(a[i].as_str(), b[i].as_str()) {
            assert(views(a@)[i as int] != views(b@)[i as int]);
            return false;
        }
    }
    assert(views(a@) =~= views(b@));
    true
}

/// Whether `a` and `b` name the same path: `/x//a.nam`, `/x/./a.nam` and
/// `/x/a.nam` all do.
pub fn same_path(a: &str, b: &str) -> (r: bool)
    ensures
        r == same_path_spec(a@, b@),
{
    let ca = components_of(a);
    let cb = components_of(b);
    same_strings(&ca, &cb)
}

} // verus!
