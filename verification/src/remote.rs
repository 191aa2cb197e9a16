//! The remote-control footswitch page: which actions a request asks for, and
//! how each request line is answered.

use vstd::prelude::*;
use crate::text::{
    chars_of, find_char, index_of_char, lemma_index_of_char, lemma_index_of_char_at, same_text,
    substring, views,
};

verus! {

/// Whether `c` separates two `key=value` pairs of a query string. Besides
/// `&`, a further `?` also starts a new pair, so that links written as
/// `?mode=toggle?action=pedal-bypass` work as documented.
pub open spec fn is_pair_sep(c: char) -> bool {
    c == '&' || c == '?'
}

/// Index of the first pair separator in `s`, or `s.len()` when there is none.
pub open spec fn index_of_sep(s: Seq<char>) -> int
    decreases s.len(),
{
    if s.len() == 0 {
        0
    } else if is_pair_sep(s[0]) {
        0
    } else {
        1 + index_of_sep(s.drop_first())
    }
}

proof fn lemma_index_of_sep_at(s: Seq<char>, k: int)
    requires
        0 <= k <= s.len(),
        forall|j: int| 0 <= j < k ==> !is_pair_sep(#[trigger] s[j]),
        k == s.len() || is_pair_sep(s[k]),
    ensures
        index_of_sep(s) == k,
    decreases s.len(),
{
    if s.len() > 0 && k > 0 {
        let t = s.drop_first();
        assert forall|j: int| 0 <= j < k - 1 implies !is_pair_sep(#[trigger] t[j]) by {
            assert(t[j] == s[j + 1]);
        }
        lemma_index_of_sep_at(t, k - 1);
    }
}

/// The `key=value` pairs of a query string, in order.
pub open spec fn query_pairs(s: Seq<char>) -> Seq<Seq<char>>
    decreases s.len(),
{
    let i = index_of_sep(s);
    if 0 <= i < s.len() {
        seq![s.take(i)] + query_pairs(s.skip(i + 1))
    } else {
        seq![s]
    }
}

/// The key that names an action in a query string.
pub open spec fn action_key() -> Seq<char> {
    seq!['a', 'c', 't', 'i', 'o', 'n']
}

/// The action a `key=value` query pair asks for: its value when the key is `action`.
pub open spec fn action_of(pair: Seq<char>) -> Option<Seq<char>> {
    let e = index_of_char(pair, '=');
    if e < pair.len() && pair.take(e) == action_key() {
        Some(pair.skip(e + 1))
    } else {
        None
    }
}

/// The actions that a request path asks for: the values of the `action=`
/// pairs of its query string (everything after the first `?`), in order.
pub open spec fn requested_actions(path: Seq<char>) -> Seq<Seq<char>> {
    let q = index_of_char(path, '?');
    if q < path.len() {
        query_pairs(path.skip(q + 1)).filter_map(|pair: Seq<char>| action_of(pair))
    } else {
        Seq::empty()
    }
}

proof fn lemma_pairs_step(s: Seq<char>, k: int)
    requires
        0 <= k < s.len(),
        is_pair_sep(s[k]),
        forall|j: int| 0 <= j < k ==> !is_pair_sep(#[trigger] s[j]),
    ensures
        query_pairs(s) == seq![s.take(k)] + query_pairs(s.skip(k + 1)),
{
    lemma_index_of_sep_at(s, k);
}

proof fn lemma_pairs_last(s: Seq<char>)
    requires
        forall|j: int| 0 <= j < s.len() ==> !is_pair_sep(#[trigger] s[j]),
    ensures
        query_pairs(s) == seq![s],
{
    lemma_index_of_sep_at(s, s.len() as int);
}

/// The action asked for by the pair `pc[a..b]` of `path`.
fn pair_action(path: &str, pc: &Vec<char>, a: usize, b: usize) -> (r: Option<String>)
    requires
        pc@ == path@,
        a <= b <= pc@.len(),
    ensures
        r matches Some(v) ==> action_of(pc@.subrange(a as int, b as int)) == Some(v@),
        r is None ==> action_of(pc@.subrange(a as int, b as int)) is None,
{
    let ghost pair = pc@.subrange(a as int, b as int);
    let mut e = a;
    while e < b && pc[e] != '='
        invariant
            a <= e <= b,
            b <= pc@.len(),
            forall|j: int| a <= j < e ==> pc@[j] != '=',
        decreases b - e,
    {
        e = e + 1;
    }
    proof {
        assert forall|j: int| 0 <= j < e - a implies pair[j] != '=' by {
            assert(pair[j] == pc@[a + j]);
        }
        if e < b {
            assert(pair[e - a] == '=');
        }
        lemma_index_of_char_at(pair, '=', e - a);
    }
    if e == b {
        return None;
    }
    let key = substring(path, a, e);
    assert(key@ =~= pair.take(e - a));
    proof {
        reveal_strlit("action");
        assert("action"@ =~= action_key());
    }
    if same_text(key.as_str(), "action") {
        let value = substring(path, e + 1, b);
        assert(value@ =~= pair.skip(e - a + 1));
        Some(value)
    } else {
        None
    }
}

/// The actions that a request path asks for: for `/?mode=toggle&action=amp-next`
/// (or `/?mode=toggle?action=amp-next`) this is `["amp-next"]`; a path
/// without `?` asks for nothing.
pub fn parse_actions(path: &str) -> (r: Vec<String>)
    ensures
        views(r@) == requested_actions(path@),
{
    let pc = chars_of(path);
    let n = pc.len();
    let qm = find_char(&pc, '?');
    proof {
        lemma_index_of_char(pc@, '?');
    }
    let mut r: Vec<String> = Vec::new();
    if qm == n {
        assert(views(r@) =~= Seq::<Seq<char>>::empty());
        return r;
    }
    let ghost q = pc@.skip(qm + 1);
    let ghost f = |pair: Seq<char>| action_of(pair);
    let ghost mut done: Seq<Seq<char>> = Seq::empty();
    let mut start = qm + 1;
    let mut j = qm + 1;
    assert(pc@.skip(start as int) == q);
    assert(views(r@) =~= done.filter_map(f));
    while j < n
        invariant
            n == pc@.len(),
            pc@ == path@,
            qm < n,
            q == pc@.skip(qm + 1),
            qm + 1 <= start <= j <= n,
            forall|k: int| start <= k < j ==> !is_pair_sep(#[trigger] pc@[k]),
            query_pairs(q) == done + query_pairs(pc@.skip(start as int)),
            views(r@) == done.filter_map(f),
            f == (|pair: Seq<char>| action_of(pair)),
        decreases n - j,
    {
        if pc[j] == '&' || pc[j] == '?' {
            proof {
                let s = pc@.skip(start as int);
                assert forall|k: int| 0 <= k < j - start implies !is_pair_sep(#[trigger] s[k]) by {
                    assert(s[k] == pc@[start + k]);
                }
                lemma_pairs_step(s, j - start);
                assert(s.take(j - start) =~= pc@.subrange(start as int, j as int));
                assert(s.skip(j - start + 1) =~= pc@.skip(j + 1));
            }
            let act = pair_action(path, &pc, start, j);
            let ghost seg = pc@.subrange(start as int, j as int);
            let ghost old_done = done;
            proof {
                done = done.push(seg);
                assert(done.drop_last() =~= old_done);
                assert(query_pairs(q) =~= done + query_pairs(pc@.skip(j + 1)));
            }
            match act {
                Some(v) => {
                    let ghost old_r = r@;
                    r.push(v);
                    assert(views(r@) =~= views(old_r) + seq![v@]);
                },
                None => {},
            }
            start = j + 1;
        }
        j = j + 1;
    }
    proof {
        let s = pc@.skip(start as int);
        assert forall|k: int| 0 <= k < s.len() implies !is_pair_sep(#[trigger] s[k]) by {
            assert(s[k] == pc@[start + k]);
        }
        lemma_pairs_last(s);
        assert(s =~= pc@.subrange(start as int, n as int));
    }
    let act = pair_action(path, &pc, start, n);
    let ghost seg = pc@.subrange(start as int, n as int);
    let ghost old_done = done;
    proof {
        done = done.push(seg);
        assert(done.drop_last() =~= old_done);
        assert(query_pairs(q) =~= done);
    }
    match act {
        Some(v) => {
            let ghost old_r = r@;
            r.push(v);
            assert(views(r@) =~= views(old_r) + seq![v@]);
        },
        None => {},
    }
    r
}

/// Unicode white space, as `char::is_whitespace` classifies it.
pub open spec fn is_white(c: char) -> bool {
    let u = c as int;
    (0x9 <= u <= 0xD) || u == 0x20 || u == 0x85 || u == 0xA0 || u == 0x1680 || (0x2000 <= u
        <= 0x200A) || u == 0x2028 || u == 0x2029 || u == 0x202F || u == 0x205F || u == 0x3000
}

fn white(c: char) -> (r: bool)
    ensures
        r == is_white(c),
{
    let u = c as u32;
    assert(u as int == c as int);
    (0x9 <= u && u <= 0xD) || u == 0x20 || u == 0x85 || u == 0xA0 || u == 0x1680 || (0x2000 <= u
        && u <= 0x200A) || u == 0x2028 || u == 0x2029 || u == 0x202F || u == 0x205F || u == 0x3000
}

/// Number of leading characters of `s` whose white-space-ness is `w`.
pub open spec fn run_len(s: Seq<char>, w: bool) -> int
    decreases s.len(),
{
    if s.len() > 0 && is_white(s[0]) == w {
        1 + run_len(s.drop_first(), w)
    } else {
        0
    }
}

proof fn lemma_run_len_at(s: Seq<char>, w: bool, k: int)
    requires
        0 <= k <= s.len(),
        forall|j: int| 0 <= j < k ==> is_white(#[trigger] s[j]) == w,
        k == s.len() || is_white(s[k]) != w,
    ensures
        run_len(s, w) == k,
    decreases s.len(),
{
    if k > 0 {
        let t = s.drop_first();
        assert forall|j: int| 0 <= j < k - 1 implies is_white(#[trigger] t[j]) == w by {
            assert(t[j] == s[j + 1]);
        }
        lemma_run_len_at(t, w, k - 1);
    }
}

/// The first white-space separated word of `s` (empty when there is none).
pub open spec fn first_word(s: Seq<char>) -> Seq<char> {
    let t = s.skip(run_len(s, true));
    t.take(run_len(t, false))
}

/// What follows the first word of `s`.
pub open spec fn after_first_word(s: Seq<char>) -> Seq<char> {
    let t = s.skip(run_len(s, true));
    t.skip(run_len(t, false))
}

/// The method that starts a request line `METHOD PATH VERSION`.
pub open spec fn request_method(line: Seq<char>) -> Seq<char> {
    first_word(line)
}

/// The path that follows the method in a request line.
pub open spec fn request_path(line: Seq<char>) -> Seq<char> {
    first_word(after_first_word(line))
}

/// The `POST` method name.
pub open spec fn post_method() -> Seq<char> {
    seq!['P', 'O', 'S', 'T']
}

/// How the footswitch server answers one request.
pub enum RemoteReply {
    /// A `POST`: perform these actions and answer with no content.
    Trigger(Vec<String>),
    /// Anything else: answer with the footswitch page.
    Page,
}

/// Index just past the run of characters with white-space-ness `w` that starts at `from`.
fn skip_run(c: &Vec<char>, from: usize, w: bool) -> (e: usize)
    requires
        from <= c@.len(),
    ensures
        from <= e <= c@.len(),
        run_len(c@.skip(from as int), w) == e - from,
{
    let n = c.len();
    let mut e = from;
    while e < n && white(c[e]) == w
        invariant
            from <= e <= n,
            n == c@.len(),
            forall|j: int| from <= j < e ==> is_white(#[trigger] c@[j]) == w,
        decreases n - e,
    {
        e = e + 1;
    }
    proof {
        let s = c@.skip(from as int);
        assert forall|j: int| 0 <= j < e - from implies is_white(#[trigger] s[j]) == w by {
            assert(s[j] == c@[from + j]);
        }
        if e < n {
            assert(s[e - from] == c@[e as int]);
        }
        lemma_run_len_at(s, w, e - from);
    }
    e
}

/// Decides the answer to a request line: a `POST` triggers the actions named in
/// its path, any other method gets the page.
pub fn route_request(line: &str) -> (r: RemoteReply)
    ensures
        request_method(line@) == post_method() ==> (r matches RemoteReply::Trigger(a) && views(a@)
            == requested_actions(request_path(line@))),
        request_method(line@) != post_method() ==> r is Page,
{
    let c = chars_of(line);
    let n = c.len();
    let a = skip_run(&c, 0, true);
    let b = skip_run(&c, a, false);
    let d = skip_run(&c, b, true);
    let e = skip_run(&c, d, false);
    proof {
        let s = c@;
        assert(s.skip(0) =~= s);
        let t = s.skip(a as int);
        assert(t.take(b - a) =~= s.subrange(a as int, b as int));
        assert(t.skip(b - a) =~= s.skip(b as int));
        let u = s.skip(b as int);
        assert(u.skip(d - b) =~= s.skip(d as int));
        let v = s.skip(d as int);
        assert(v.take(e - d) =~= s.subrange(d as int, e as int));
        reveal_strlit("POST");
        assert("POST"@ =~= post_method());
    }
    let method = substring(line, a, b);
    if same_text(method.as_str(), "POST") {
        let path = substring(line, d, e);
        RemoteReply::Trigger(parse_actions(path.as_str()))
    } else {
        RemoteReply::Page
    }
}

} // verus!
