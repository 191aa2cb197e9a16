//! Tuner decisions: when the detector thread runs, reports silence or stops,
//! and how a MIDI note number is named.

use vstd::prelude::*;
use vstd::string::StringExecFns;

verus! {

/// Samples the pitch detector looks at.
pub const DETECTION_SIZE: usize = 2048;

/// Zero padding the pitch detector adds.
pub const DETECTION_PADDING: usize = 256;

/// Samples the tuner keeps from the input stream.
pub const SAMPLE_BUFFER_MAX: usize = 8192;

/// What the tuner thread does on one wake-up.
#[derive(PartialEq, Eq, Debug, Clone, Copy, Structural)]
pub enum TunerAction {
    /// The engine is shutting down: leave the loop.
    Stop,
    /// The tuner was just turned off: report 0 Hz once so the display clears.
    ReportSilence,
    /// The tuner is off: do nothing.
    Idle,
    /// The tuner is on: run the detector on the latest samples, if there are enough.
    Detect,
}

/// The tuner thread's state (whether it was running on its last wake-up) and action.
pub open spec fn tuner_next(was_enabled: bool, shutdown: bool, enabled: bool) -> (bool, TunerAction) {
    if shutdown {
        (was_enabled, TunerAction::Stop)
    } else if !enabled {
        (false, if was_enabled { TunerAction::ReportSilence } else { TunerAction::Idle })
    } else {
        (true, TunerAction::Detect)
    }
}

/// The tuner thread's memory between wake-ups.
pub struct TunerLoop {
    was_enabled: bool,
}

impl View for TunerLoop {
    type V = bool;

    closed spec fn view(&self) -> bool {
        self.was_enabled
    }
}

impl TunerLoop {
    /// A tuner thread that has not run yet.
    pub fn new() -> (t: TunerLoop)
        ensures
            t@ == false,
    {
        TunerLoop { was_enabled: false }
    }

    /// Decides one wake-up from the shutdown and enabled flags.
    pub fn step(&mut self, shutdown: bool, enabled: bool) -> (a: TunerAction)
        ensures
            (final(self)@, a) == tuner_next(old(self)@, shutdown, enabled),
    {
        if shutdown {
            return TunerAction::Stop;
        }
        if !enabled {
            let action = if self.was_enabled {
                TunerAction::ReportSilence
            } else {
                TunerAction::Idle
            };
            self.was_enabled = false;
            return action;
        }
        self.was_enabled = true;
        TunerAction::Detect
    }
}

/// Turning the tuner off is reported exactly once: the wake-up after a
/// report, still off, is idle.
pub proof fn lemma_silence_reported_once(was_enabled: bool)
    ensures
        tuner_next(was_enabled, false, false).1 == TunerAction::ReportSilence <==> was_enabled,
        tuner_next(tuner_next(was_enabled, false, false).0, false, false).1 == TunerAction::Idle,
{
}

/// What each wake-up decides, whatever the thread remembers: a shutdown always
/// stops the thread (enabled or not), and leaves its memory alone; otherwise an
/// enabled tuner detects, and a disabled one reports silence exactly when it
/// was running on the previous wake-up and idles otherwise; the thread then
/// remembers whether the tuner was enabled.
pub proof fn lemma_tuner_decisions(was_enabled: bool, shutdown: bool, enabled: bool)
    ensures
        shutdown ==> tuner_next(was_enabled, shutdown, enabled) == (was_enabled, TunerAction::Stop),
        (tuner_next(was_enabled, shutdown, enabled).1 == TunerAction::Stop) <==> shutdown,
        !shutdown ==> tuner_next(was_enabled, shutdown, enabled).0 == enabled,
        !shutdown && enabled ==> tuner_next(was_enabled, shutdown, enabled).1
            == TunerAction::Detect,
        !shutdown && !enabled ==> (tuner_next(was_enabled, shutdown, enabled).1
            == TunerAction::ReportSilence <==> was_enabled),
        !shutdown && !enabled && !was_enabled ==> tuner_next(was_enabled, shutdown, enabled).1
            == TunerAction::Idle,
{
}

/// Names of the twelve pitch classes, from C.
pub open spec fn pitch_class_names() -> Seq<Seq<char>> {
    seq![
        seq!['C'],
        seq!['C', '#'],
        seq!['D'],
        seq!['D', '#'],
        seq!['E'],
        seq!['F'],
        seq!['F', '#'],
        seq!['G'],
        seq!['G', '#'],
        seq!['A'],
        seq!['A', '#'],
        seq!['B'],
    ]
}

/// Name of a pitch class (0 is C, 11 is B).
pub open spec fn pitch_class_name(k: int) -> Seq<char> {
    pitch_class_names()[k]
}

/// The decimal digit character for `d` in 0..=9.
pub open spec fn digit_char(d: int) -> char {
    ((d + 48) as u32) as char
}

/// Lowest MIDI note the tuner names (A0).
pub open spec fn lowest_note() -> int {
    21
}

/// Highest MIDI note the tuner names (C8).
pub open spec fn highest_note() -> int {
    108
}

/// The name of MIDI note `m`: pitch class then octave, where note 60 is `C4`.
pub open spec fn note_label(m: int) -> Seq<char> {
    pitch_class_name(m % 12) + seq![digit_char(m / 12 - 1)]
}

fn pitch_class(k: i32) -> (s: &'static str)
    requires
        0 <= k < 12,
    ensures
        s@ == pitch_class_name(k as int),
{
    match k {
        0 => {
            proof {
                reveal_strlit("C");
                assert("C"@ =~= pitch_class_name(0));
            }
            "C"
        },
        1 => {
            proof {
                reveal_strlit("C#");
                assert("C#"@ =~= pitch_class_name(1));
            }
            "C#"
        },
        2 => {
            proof {
                reveal_strlit("D");
                assert("D"@ =~= pitch_class_name(2));
            }
            "D"
        },
        3 => {
            proof {
                reveal_strlit("D#");
                assert("D#"@ =~= pitch_class_name(3));
            }
            "D#"
        },
        4 => {
            proof {
                reveal_strlit("E");
                assert("E"@ =~= pitch_class_name(4));
            }
            "E"
        },
        5 => {
            proof {
                reveal_strlit("F");
                assert("F"@ =~= pitch_class_name(5));
            }
            "F"
        },
        6 => {
            proof {
                reveal_strlit("F#");
                assert("F#"@ =~= pitch_class_name(6));
            }
            "F#"
        },
        7 => {
            proof {
                reveal_strlit("G");
                assert("G"@ =~= pitch_class_name(7));
            }
            "G"
        },
        8 => {
            proof {
                reveal_strlit("G#");
                assert("G#"@ =~= pitch_class_name(8));
            }
            "G#"
        },
        9 => {
            proof {
                reveal_strlit("A");
                assert("A"@ =~= pitch_class_name(9));
            }
            "A"
        },
        10 => {
            proof {
                reveal_strlit("A#");
                assert("A#"@ =~= pitch_class_name(10));
            }
            "A#"
        },
        _ => {
            proof {
                reveal_strlit("B");
                assert("B"@ =~= pitch_class_name(11));
            }
            "B"
        },
    }
}

fn octave_digit(o: i32) -> (s: &'static str)
    requires
        0 <= o <= 8,
    ensures
        s@ == seq![digit_char(o as int)],
{
    match o {
        0 => {
            proof {
                reveal_strlit("0");
                assert("0"@ =~= seq![digit_char(0)]);
            }
            "0"
        },
        1 => {
            proof {
                reveal_strlit("1");
                assert("1"@ =~= seq![digit_char(1)]);
            }
            "1"
        },
        2 => {
            proof {
                reveal_strlit("2");
                assert("2"@ =~= seq![digit_char(2)]);
            }
            "2"
        },
        3 => {
            proof {
                reveal_strlit("3");
                assert("3"@ =~= seq![digit_char(3)]);
            }
            "3"
        },
        4 => {
            proof {
                reveal_strlit("4");
                assert("4"@ =~= seq![digit_char(4)]);
            }
            "4"
        },
        5 => {
            proof {
                reveal_strlit("5");
                assert("5"@ =~= seq![digit_char(5)]);
            }
            "5"
        },
        6 => {
            proof {
                reveal_strlit("6");
                assert("6"@ =~= seq![digit_char(6)]);
            }
            "6"
        },
        7 => {
            proof {
                reveal_strlit("7");
                assert("7"@ =~= seq![digit_char(7)]);
            }
            "7"
        },
        _ => {
            proof {
                reveal_strlit("8");
                assert("8"@ =~= seq![digit_char(8)]);
            }
            "8"
        },
    }
}

/// The name of MIDI note `midi` (`A4` for 69, `C#2` for 37), for notes from A0
/// (21) to C8 (108); other notes have no name.
pub fn note_name(midi: i32) -> (r: Option<String>)
    ensures
        lowest_note() <= midi <= highest_note() ==> (r matches Some(s) && s@ == note_label(
            midi as int,
        )),
        !(lowest_note() <= midi <= highest_note()) ==> r is None,
{
    if midi < 21 || midi > 108 {
        return None;
    }
    let class = pitch_class(midi % 12);
    let octave = octave_digit(midi / 12 - 1);
    let mut s = String::from_str(class);
    s.append(octave);
    Some(s)
}

/// The next letter of the musical alphabet A to G, wrapping from G to A.
pub open spec fn letter_after(c: char) -> char {
    if c == 'G' {
        'A'
    } else {
        ((c as u32) + 1) as char
    }
}

proof fn lemma_letters()
    ensures
        letter_after('A') == 'B',
        letter_after('B') == 'C',
        letter_after('C') == 'D',
        letter_after('D') == 'E',
        letter_after('E') == 'F',
        letter_after('F') == 'G',
        letter_after('G') == 'A',
{
    assert(((('A' as u32) + 1) as char) == 'B');
    assert(((('B' as u32) + 1) as char) == 'C');
    assert(((('C' as u32) + 1) as char) == 'D');
    assert(((('D' as u32) + 1) as char) == 'E');
    assert(((('E' as u32) + 1) as char) == 'F');
    assert(((('F' as u32) + 1) as char) == 'G');
}

/// Note names follow the keyboard: A4 is MIDI note 69, and one semitone up
/// from a name `X#` is the next letter, from `E` or `B` it is the next letter
/// (no black key between them), and from any other letter `X` it is `X#`;
/// the octave number, the last character, goes up by one exactly at `C`.
pub proof fn lemma_note_names(m: int)
    requires
        lowest_note() <= m,
        m + 1 <= highest_note(),
    ensures
        note_label(69) == seq!['A', '4'],
        ({
            let a = note_label(m);
            let b = note_label(m + 1);
            let pa = a.drop_last();
            let pb = b.drop_last();
            &&& a.len() >= 2 && b.len() >= 2
            &&& '0' <= a.last() <= '9'
            &&& '0' <= b.last() <= '9'
            &&& (b.last() as int) == (a.last() as int) + (if pb == seq!['C'] {
                1int
            } else {
                0int
            })
            &&& (pa.len() == 1 || pa.len() == 2)
            &&& 'A' <= pa[0] <= 'G'
            &&& pa.len() == 2 ==> pa[1] == '#' && pb == seq![letter_after(pa[0])]
            &&& pa.len() == 1 && (pa[0] == 'E' || pa[0] == 'B') ==> pb == seq![
                letter_after(pa[0]),
            ]
            &&& pa.len() == 1 && pa[0] != 'E' && pa[0] != 'B' ==> pb == seq![pa[0], '#']
        }),
{
    let k = m % 12;
    let o = m / 12;
    assert(m == 12 * o + k);
    if k < 11 {
        assert((m + 1) % 12 == k + 1 && (m + 1) / 12 == o);
    } else {
        assert((m + 1) % 12 == 0 && (m + 1) / 12 == o + 1);
    }
    assert(1 <= o <= 8);
    lemma_class_step(k);
    lemma_digit(o - 1);
    lemma_digit(o);
    let a = note_label(m);
    let b = note_label(m + 1);
    assert(a.drop_last() =~= pitch_class_name(k));
    assert(b.drop_last() =~= pitch_class_name((m + 1) % 12));
    assert(a.last() == digit_char(o - 1));
    assert(pitch_class_name(69int % 12) == seq!['A']);
    assert(note_label(69) =~= seq!['A', '4']);
}

proof fn lemma_digit(d: int)
    requires
        0 <= d <= 9,
    ensures
        '0' <= digit_char(d) <= '9',
        digit_char(d) as int == 48 + d,
{
}

proof fn lemma_class_step(k: int)
    requires
        0 <= k < 12,
    ensures
        ({
            let pa = pitch_class_name(k);
            let pb = pitch_class_name((k + 1) % 12);
            &&& (pb == seq!['C'] <==> k == 11)
            &&& (pa.len() == 1 || pa.len() == 2)
            &&& 'A' <= pa[0] <= 'G'
            &&& pa.len() == 2 ==> pa[1] == '#' && pb == seq![letter_after(pa[0])]
            &&& pa.len() == 1 && (pa[0] == 'E' || pa[0] == 'B') ==> pb == seq![
                letter_after(pa[0]),
            ]
            &&& pa.len() == 1 && pa[0] != 'E' && pa[0] != 'B' ==> pb == seq![pa[0], '#']
        }),
{
    lemma_letters();
    let n = pitch_class_names();
    assert(n[0] == seq!['C']);
    assert(n[1] == seq!['C', '#']);
    assert(n[2] == seq!['D']);
    assert(n[3] == seq!['D', '#']);
    assert(n[4] == seq!['E']);
    assert(n[5] == seq!['F']);
    assert(n[6] == seq!['F', '#']);
    assert(n[7] == seq!['G']);
    assert(n[8] == seq!['G', '#']);
    assert(n[9] == seq!['A']);
    assert(n[10] == seq!['A', '#']);
    assert(n[11] == seq!['B']);
    assert(seq!['C'] != seq!['C', '#']);
    assert(seq!['C'][0] != seq!['D'][0]);
    assert(seq!['C'][0] != seq!['E'][0]);
    assert(seq!['C'][0] != seq!['F'][0]);
    assert(seq!['C'][0] != seq!['G'][0]);
    assert(seq!['C'][0] != seq!['A'][0]);
    assert(seq!['C'][0] != seq!['B'][0]);
}

} // verus!
