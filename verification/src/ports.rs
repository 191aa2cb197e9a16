//! Matching JACK port names to audio devices: the numeric channel suffix of a
//! port, the ports of one device in channel order, and the device list.

use vstd::prelude::*;
use crate::text::{
    chars_less, chars_of, chars_start_with, find_char, index_of_char, lemma_index_of_char,
    lemma_lex_irreflexive, lemma_lex_total, lemma_lex_transitive, lex_lt, same_chars, starts_with,
    substring, views,
};

verus! {

/// An ASCII decimal digit.
pub open spec fn is_digit(c: char) -> bool {
    48 <= (c as u32) <= 57
}

/// The value of one ASCII digit.
pub open spec fn digit_value(c: char) -> nat {
    ((c as u32) - 48) as nat
}

/// The longest run of ASCII digits at the end of `s`.
pub open spec fn trailing_digits(s: Seq<char>) -> Seq<char>
    decreases s.len(),
{
    if s.len() > 0 && is_digit(s.last()) {
        trailing_digits(s.drop_last()).push(s.last())
    } else {
        Seq::empty()
    }
}

/// The number that a run of decimal digits spells.
pub open spec fn decimal_value(d: Seq<char>) -> nat
    decreases d.len(),
{
    if d.len() == 0 {
        0
    } else {
        decimal_value(d.drop_last()) * 10 + digit_value(d.last())
    }
}

/// The channel number of a port name: its trailing digits read as a decimal
/// `u32`, or 0 when there are none or they do not fit.
pub open spec fn channel_index(s: Seq<char>) -> u32 {
    let d = trailing_digits(s);
    if d.len() > 0 && decimal_value(d) <= u32::MAX {
        decimal_value(d) as u32
    } else {
        0
    }
}

proof fn lemma_trailing_digits_from(s: Seq<char>, start: int)
    requires
        0 <= start <= s.len(),
        forall|i: int| start <= i < s.len() ==> is_digit(#[trigger] s[i]),
        start == 0 || !is_digit(s[start - 1]),
    ensures
        trailing_digits(s) == s.subrange(start, s.len() as int),
    decreases s.len(),
{
    if s.len() == start {
        assert(s.subrange(start, s.len() as int) =~= Seq::<char>::empty());
    } else {
        let t = s.drop_last();
        assert forall|i: int| start <= i < t.len() implies is_digit(#[trigger] t[i]) by {
            assert(t[i] == s[i]);
        }
        lemma_trailing_digits_from(t, start);
        assert(s.subrange(start, s.len() as int) =~= t.subrange(start, t.len() as int).push(
            s.last(),
        ));
    }
}

proof fn lemma_decimal_value_grows(d: Seq<char>, c: char)
    ensures
        decimal_value(d.push(c)) >= decimal_value(d),
{
    assert(d.push(c).drop_last() =~= d);
}

/// The channel number at the end of a port name (`10` for `system:playback_10`);
/// names with no trailing digits, or digits that overflow a `u32`, give 0.
pub fn port_channel_index(port: &str) -> (idx: u32)
    ensures
        idx == channel_index(port@),
{
    let cs = chars_of(port);
    let n = cs.len();
    let mut start = n;
    while start > 0 && (cs[start - 1] as u32) >= 48 && (cs[start - 1] as u32) <= 57
        invariant
            n == cs@.len(),
            start <= n,
            forall|i: int| start <= i < n ==> is_digit(#[trigger] cs@[i]),
        decreases start,
    {
        start = start - 1;
    }
    proof {
        lemma_trailing_digits_from(cs@, start as int);
    }
    let ghost digits = cs@.subrange(start as int, n as int);
    let mut value: u64 = 0;
    let mut overflow = false;
    let mut i = start;
    while i < n
        invariant
            start <= i <= n,
            n == cs@.len(),
            digits == cs@.subrange(start as int, n as int),
            forall|k: int| start <= k < n ==> is_digit(#[trigger] cs@[k]),
            !overflow ==> value == decimal_value(cs@.subrange(start as int, i as int)),
            !overflow ==> value <= u32::MAX,
            overflow ==> decimal_value(cs@.subrange(start as int, i as int)) > u32::MAX,
        decreases n - i,
    {
        let ghost prefix = cs@.subrange(start as int, i as int);
        assert(cs@.subrange(start as int, i + 1) =~= prefix.push(cs@[i as int]));
        assert(cs@.subrange(start as int, i + 1).drop_last() =~= prefix);
        proof {
            lemma_decimal_value_grows(prefix, cs@[i as int]);
        }
        assert(is_digit(cs@[i as int]));
        if !overflow {
            let d = (cs[i] as u32 - 48) as u64;
            let next = value * 10 + d;
            if next > 4294967295u64 {
                overflow = true;
            } else {
                value = next;
            }
        }
        i = i + 1;
    }
    assert(cs@.subrange(start as int, n as int) == trailing_digits(port@));
    if start == n || overflow {
        0
    } else {
        value as u32
    }
}

/// Whether a port name belongs to `device` (its name starts with `device:`).
pub open spec fn is_device_port(device: Seq<char>) -> spec_fn(Seq<char>) -> bool {
    |p: Seq<char>| starts_with(p, device.push(':'))
}

/// Whether a port name has channel number `k`.
pub open spec fn has_channel(k: u32) -> spec_fn(Seq<char>) -> bool {
    |p: Seq<char>| channel_index(p) == k
}

/// Port names in non-decreasing channel order.
pub open spec fn sorted_by_channel(s: Seq<Seq<char>>) -> bool {
    forall|i: int, j: int| 0 <= i < j < s.len() ==> channel_index(s[i]) <= channel_index(s[j])
}

/// `r` is `f` stably sorted by channel number: sorted, and for every channel
/// number the ports carrying it appear in `r` in the same order as in `f`.
pub open spec fn stable_channel_order(r: Seq<Seq<char>>, f: Seq<Seq<char>>) -> bool {
    &&& sorted_by_channel(r)
    &&& forall|k: u32| #[trigger] r.filter(has_channel(k)) == f.filter(has_channel(k))
}

proof fn lemma_insert_by_channel(r: Seq<Seq<char>>, f: Seq<Seq<char>>, pos: int, x: Seq<char>)
    requires
        stable_channel_order(r, f),
        0 <= pos <= r.len(),
        forall|j: int| 0 <= j < pos ==> channel_index(r[j]) <= channel_index(x),
        forall|j: int| pos <= j < r.len() ==> channel_index(r[j]) > channel_index(x),
    ensures
        stable_channel_order(r.insert(pos, x), f.push(x)),
{
    broadcast use vstd::seq_lib::group_seq_lib_default;

    let r2 = r.insert(pos, x);
    let lo = r.take(pos);
    let hi = r.skip(pos);
    assert(r =~= lo + hi);
    assert(r2 =~= lo + seq![x] + hi);
    assert(seq![x] =~= Seq::<Seq<char>>::empty().push(x));
    assert forall|k: u32| #[trigger] r2.filter(has_channel(k)) == f.push(x).filter(has_channel(k)) by {
        let pk = has_channel(k);
        Seq::<Seq<char>>::empty().lemma_filter_push(x, pk);
        f.lemma_filter_push(x, pk);
        assert(Seq::<Seq<char>>::empty().filter(pk) =~= Seq::<Seq<char>>::empty()) by {
            reveal(Seq::filter);
        }
        assert(r.filter(pk) == f.filter(pk));
        assert((lo + seq![x] + hi).filter(pk) == (lo + seq![x]).filter(pk) + hi.filter(pk));
        assert((lo + seq![x]).filter(pk) == lo.filter(pk) + seq![x].filter(pk));
        assert(r.filter(pk) == lo.filter(pk) + hi.filter(pk));
        if k == channel_index(x) {
            assert(seq![x].filter(pk) == seq![x]);
            assert(hi.all(|y: Seq<char>| !pk(y))) by {
                assert forall|j: int| 0 <= j < hi.len() implies !pk(#[trigger] hi[j]) by {
                    assert(hi[j] == r[pos + j]);
                }
            }
            hi.lemma_all_neg_filter_empty(pk);
            assert(hi.filter(pk) =~= Seq::<Seq<char>>::empty());
            assert(r.filter(pk) =~= lo.filter(pk));
            assert(r2.filter(pk) =~= lo.filter(pk).push(x));
        } else {
            assert(seq![x].filter(pk) == Seq::<Seq<char>>::empty());
            assert(r2.filter(pk) =~= lo.filter(pk) + hi.filter(pk));
        }
    }
    assert forall|i: int, j: int| 0 <= i < j < r2.len() implies channel_index(r2[i])
        <= channel_index(r2[j]) by {
        if j < pos {
        } else if j == pos {
        } else if i < pos {
            assert(r2[j] == r[j - 1]);
        } else if i == pos {
            assert(r2[j] == r[j - 1]);
        } else {
            assert(r2[i] == r[i - 1]);
            assert(r2[j] == r[j - 1]);
        }
    }
}

/// The ports of `device` among `ports` (those named `device:...`), ordered by
/// their trailing channel number rather than lexicographically, so that
/// `playback_2` comes before `playback_10`; ports with equal channel numbers
/// keep their relative order.
pub fn matching_ports(ports: &Vec<String>, device: &str) -> (r: Vec<String>)
    ensures
        stable_channel_order(views(r@), views(ports@).filter(is_device_port(device@))),
{
    let mut prefix = chars_of(device);
    prefix.push(':');
    assert(prefix@ == device@.push(':'));
    let ghost pred = is_device_port(device@);
    let mut r: Vec<String> = Vec::new();
    let mut keys: Vec<u32> = Vec::new();
    let n = ports.len();
    proof {
        assert(views(ports@).take(0) =~= Seq::<Seq<char>>::empty());
        assert(views(r@) =~= Seq::<Seq<char>>::empty());
        assert forall|k: u32| #[trigger] views(r@).filter(has_channel(k)) == views(ports@).take(
            0,
        ).filter(pred).filter(has_channel(k)) by {
            reveal(Seq::filter);
        }
    }
    for i in 0..n
        invariant
            n == ports@.len(),
            prefix@ == device@.push(':'),
            pred == is_device_port(device@),
            keys@.len() == r@.len(),
            forall|j: int| 0 <= j < keys@.len() ==> keys@[j] == channel_index(#[trigger] r@[j]@),
            stable_channel_order(views(r@), views(ports@).take(i as int).filter(pred)),
    {
        let ghost before = views(ports@).take(i as int).filter(pred);
        proof {
            assert(views(ports@).take(i + 1) =~= views(ports@).take(i as int).push(ports@[i as int]@));
            views(ports@).take(i as int).lemma_filter_push(ports@[i as int]@, pred);
        }
        let pc = chars_of(ports[i].as_str());
        if chars_start_with(&pc, &prefix) {
            let k = port_channel_index(ports[i].as_str());
            let mut pos: usize = 0;
            while pos < keys.len() && keys[pos] <= k
                invariant
                    pos <= keys@.len(),
                    forall|j: int| 0 <= j < pos ==> keys@[j] <= k,
                decreases keys@.len() - pos,
            {
                pos = pos + 1;
            }
            proof {
                let rv = views(r@);
                assert forall|j: int| 0 <= j < pos implies channel_index(rv[j]) <= channel_index(
                    ports@[i as int]@,
                ) by {
                    assert(keys@[j] == channel_index(r@[j]@));
                }
                assert forall|j: int| pos <= j < rv.len() implies channel_index(rv[j])
                    > channel_index(ports@[i as int]@) by {
                    assert(keys@[pos as int] > k);
                    assert(keys@[pos as int] == channel_index(r@[pos as int]@));
                    assert(keys@[j] == channel_index(r@[j]@));
                    assert(channel_index(rv[pos as int]) <= channel_index(rv[j]));
                }
                lemma_insert_by_channel(rv, before, pos as int, ports@[i as int]@);
            }
            let item = ports[i].clone();
            let ghost old_r = r@;
            let ghost old_keys = keys@;
            r.insert(pos, item);
            keys.insert(pos, k);
            proof {
                assert(views(r@) =~= views(old_r).insert(pos as int, ports@[i as int]@));
                assert forall|j: int| 0 <= j < keys@.len() implies keys@[j] == channel_index(
                    #[trigger] r@[j]@,
                ) by {
                    if j < pos {
                        assert(keys@[j] == old_keys[j] && r@[j] == old_r[j]);
                    } else if j > pos {
                        assert(keys@[j] == old_keys[j - 1] && r@[j] == old_r[j - 1]);
                    }
                }
            }
        }
    }
    assert(views(ports@).take(n as int) =~= views(ports@));
    r
}

/// A stable channel ordering of `f` is empty exactly when `f` is.
proof fn lemma_stable_order_empty(m: Seq<Seq<char>>, f: Seq<Seq<char>>)
    requires
        stable_channel_order(m, f),
    ensures
        m.len() == 0 <==> f.len() == 0,
{
    if f.len() > 0 {
        let pk = has_channel(channel_index(f[0]));
        f.filter_lemma(pk);
        m.filter_lemma(pk);
        assert(f.filter(pk).contains(f[0]));
        assert(m.filter(pk) == f.filter(pk));
    }
    if m.len() > 0 {
        let pk = has_channel(channel_index(m[0]));
        f.filter_lemma(pk);
        m.filter_lemma(pk);
        assert(m.filter(pk).contains(m[0]));
        assert(m.filter(pk) == f.filter(pk));
    }
}

/// How a device chosen in the settings is wired to the client's own ports.
pub enum DeviceLinks {
    /// No device is chosen: the own ports stay disconnected.
    Cleared,
    /// The device has no ports: nothing is connected and the user is warned.
    NotFound,
    /// The own ports, in order, are connected to these ports of the device.
    Connect(Vec<String>),
}

/// `a` or `b`, whichever is smaller.
pub open spec fn min_len(a: int, b: int) -> int {
    if a < b {
        a
    } else {
        b
    }
}

/// How `own` client ports are wired to `device`: its ports in channel order
/// (`matching_ports`), the first to the first own port and so on, as far as
/// either list goes; `NotFound` when the device has no ports among `ports`.
pub fn device_links(ports: &Vec<String>, device: Option<&str>, own: usize) -> (r: DeviceLinks)
    ensures
        device is None ==> r is Cleared,
        device matches Some(d) ==> !(r is Cleared) && (r is NotFound <==> views(ports@).filter(
            is_device_port(d@),
        ).len() == 0),
        r matches DeviceLinks::Connect(v) ==> (device matches Some(d) && exists|m: Seq<Seq<char>>|
            stable_channel_order(m, views(ports@).filter(is_device_port(d@))) && views(v@) == m.take(
                min_len(own as int, m.len() as int),
            )),
{
    match device {
        None => DeviceLinks::Cleared,
        Some(d) => {
            let m = matching_ports(ports, d);
            proof {
                lemma_stable_order_empty(views(m@), views(ports@).filter(is_device_port(d@)));
            }
            if m.len() == 0 {
                return DeviceLinks::NotFound;
            }
            let c = if own < m.len() {
                own
            } else {
                m.len()
            };
            let mut v: Vec<String> = Vec::new();
            for i in 0..c
                invariant
                    c <= m@.len(),
                    views(v@) == views(m@).take(i as int),
            {
                let ghost old_v = v@;
                v.push(m[i].clone());
                assert(views(v@) =~= views(m@).take(i + 1)) by {
                    assert(views(v@) =~= views(old_v).push(m@[i as int]@));
                }
            }
            assert(views(m@).take(c as int) == views(m@).take(
                min_len(own as int, views(m@).len() as int),
            ));
            DeviceLinks::Connect(v)
        },
    }
}

/// Whether a port name has a `node:port` form.
pub open spec fn has_node(p: Seq<char>) -> bool {
    index_of_char(p, ':') < p.len()
}

/// The device (node) part of a `node:port` name: everything before the first `:`.
pub open spec fn node_of(p: Seq<char>) -> Seq<char> {
    p.take(index_of_char(p, ':'))
}

/// `d` is the device of one of the first `n` ports, and not the client itself.
pub open spec fn is_listed_device(ports: Seq<Seq<char>>, own: Seq<char>, n: int, d: Seq<char>) -> bool {
    exists|i: int| 0 <= i < n && has_node(#[trigger] ports[i]) && node_of(ports[i]) == d && d != own
}

/// Names in strictly increasing code-point lexicographic order (so without repeats).
pub open spec fn strictly_sorted(s: Seq<Seq<char>>) -> bool {
    forall|i: int, j: int| 0 <= i < j < s.len() ==> lex_lt(s[i], s[j])
}

proof fn lemma_insert_sorted_unique(r: Seq<Seq<char>>, pos: int, x: Seq<char>)
    requires
        strictly_sorted(r),
        0 <= pos <= r.len(),
        forall|j: int| 0 <= j < pos ==> lex_lt(r[j], x),
        pos < r.len() ==> lex_lt(x, r[pos]),
    ensures
        strictly_sorted(r.insert(pos, x)),
        forall|d: Seq<char>| r.insert(pos, x).contains(d) <==> (r.contains(d) || d == x),
{
    let r2 = r.insert(pos, x);
    assert forall|i: int, j: int| 0 <= i < j < r2.len() implies lex_lt(r2[i], r2[j]) by {
        if j < pos {
        } else if j == pos {
        } else if i < pos {
            assert(r2[j] == r[j - 1]);
            if j - 1 > pos {
                lemma_lex_transitive(x, r[pos], r[j - 1]);
            }
            lemma_lex_transitive(r[i], x, r[j - 1]);
        } else if i == pos {
            assert(r2[j] == r[j - 1]);
            if j - 1 > pos {
                lemma_lex_transitive(x, r[pos], r[j - 1]);
            }
        } else {
            assert(r2[i] == r[i - 1]);
            assert(r2[j] == r[j - 1]);
        }
    }
    assert forall|d: Seq<char>| r2.contains(d) <==> (r.contains(d) || d == x) by {
        if r2.contains(d) {
            let j = choose|j: int| 0 <= j < r2.len() && r2[j] == d;
            if j < pos {
                assert(r[j] == d);
            } else if j > pos {
                assert(r[j - 1] == d);
            }
        }
        if r.contains(d) {
            let j = choose|j: int| 0 <= j < r.len() && r[j] == d;
            if j < pos {
                assert(r2[j] == d);
            } else {
                assert(r2[j + 1] == d);
            }
        }
        if d == x {
            assert(r2[pos] == d);
        }
    }
}

/// The audio devices that own the given port names: the part of each
/// `node:port` name before the first `:`, leaving out `own_name` (this
/// client) and names without a `:`, sorted and without repeats.
pub fn audio_devices(ports: &Vec<String>, own_name: &str) -> (r: Vec<String>)
    ensures
        strictly_sorted(views(r@)),
        forall|d: Seq<char>|
            views(r@).contains(d) <==> is_listed_device(
                views(ports@),
                own_name@,
                ports@.len() as int,
                d,
            ),
{
    let own = chars_of(own_name);
    let mut r: Vec<String> = Vec::new();
    let n = ports.len();
    let ghost pv = views(ports@);
    for i in 0..n
        invariant
            n == ports@.len(),
            pv == views(ports@),
            own@ == own_name@,
            strictly_sorted(views(r@)),
            forall|d: Seq<char>|
                views(r@).contains(d) <==> is_listed_device(pv, own_name@, i as int, d),
    {
        let name = ports[i].as_str();
        let pc = chars_of(name);
        let colon = find_char(&pc, ':');
        proof {
            lemma_index_of_char(pc@, ':');
            assert(pv[i as int] == pc@);
        }
        let ghost old_r = views(r@);
        if colon < pc.len() {
            let node = substring(name, 0, colon);
            let nc = chars_of(node.as_str());
            assert(nc@ == node_of(pv[i as int]));
            if !same_chars(&nc, &own) {
                let mut pos: usize = 0;
                let mut found = false;
                let mut stop = false;
                while !stop && pos < r.len()
                    invariant
                        pos <= r@.len(),
                        old_r == views(r@),
                        forall|j: int| 0 <= j < pos ==> lex_lt(old_r[j], nc@),
                        stop ==> pos < r@.len() && !lex_lt(old_r[pos as int], nc@) && found == (
                        old_r[pos as int] == nc@),
                        !stop ==> !found,
                    decreases r@.len() - pos + (if stop { 0int } else { 1int }),
                {
                    let rc = chars_of(r[pos].as_str());
                    assert(rc@ == old_r[pos as int]);
                    if !chars_less(&rc, &nc) {
                        found = same_chars(&rc, &nc);
                        stop = true;
                    } else {
                        pos = pos + 1;
                    }
                }
                if !found {
                    proof {
                        if pos < old_r.len() {
                            lemma_lex_total(nc@, old_r[pos as int]);
                        }
                        lemma_insert_sorted_unique(old_r, pos as int, nc@);
                    }
                    r.insert(pos, node);
                    assert(views(r@) =~= old_r.insert(pos as int, nc@));
                    assert forall|d: Seq<char>|
                        views(r@).contains(d) <==> (old_r.contains(d) || d == nc@) by {
                        assert(old_r.insert(pos as int, nc@).contains(d) <==> (old_r.contains(d)
                            || d == nc@));
                    }
                } else {
                    assert(old_r.contains(nc@)) by {
                        assert(old_r[pos as int] == nc@);
                    }
                    assert(views(r@) == old_r);
                }
                assert(nc@ != own_name@);
                assert(is_listed_device(pv, own_name@, i + 1, nc@)) by {
                    assert(has_node(pv[i as int]) && node_of(pv[i as int]) == nc@);
                }
                assert(forall|d: Seq<char>| views(r@).contains(d) <==> (old_r.contains(d) || d == nc@));
                assert forall|d: Seq<char>|
                    views(r@).contains(d) <==> is_listed_device(pv, own_name@, i + 1, d) by {
                    if old_r.contains(d) {
                        assert(is_listed_device(pv, own_name@, i as int, d));
                        let j = choose|j: int|
                            0 <= j < i && has_node(#[trigger] pv[j]) && node_of(pv[j]) == d
                                && d != own_name@;
                        assert(0 <= j < i + 1 && has_node(pv[j]) && node_of(pv[j]) == d);
                    }
                    if is_listed_device(pv, own_name@, i + 1, d) && d != nc@ {
                        let j = choose|j: int|
                            0 <= j < i + 1 && has_node(#[trigger] pv[j]) && node_of(pv[j]) == d
                                && d != own_name@;
                        assert(j < i);
                    }
                }
            } else {
                assert forall|d: Seq<char>|
                    views(r@).contains(d) <==> is_listed_device(pv, own_name@, i + 1, d) by {
                    if is_listed_device(pv, own_name@, i + 1, d) {
                        let j = choose|j: int|
                            0 <= j < i + 1 && has_node(#[trigger] pv[j]) && node_of(pv[j]) == d
                                && d != own_name@;
                        assert(j < i);
                    }
                }
            }
        } else {
            assert forall|d: Seq<char>|
                views(r@).contains(d) <==> is_listed_device(pv, own_name@, i + 1, d) by {
                if is_listed_device(pv, own_name@, i + 1, d) {
                    let j = choose|j: int|
                        0 <= j < i + 1 && has_node(#[trigger] pv[j]) && node_of(pv[j]) == d
                            && d != own_name@;
                    assert(j < i);
                }
            }
        }
    }
    r
}

} // verus!
