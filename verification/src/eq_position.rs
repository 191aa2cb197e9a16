//! Where the three-band EQ sits in the signal chain, with its dropdown index
//! and its name in the settings store.

use vstd::prelude::*;
use crate::text::same_text;

verus! {

/// Position of the EQ block in the signal chain.
#[derive(Clone, Copy, PartialEq, Eq, Debug, Structural)]
pub enum EqPosition {
    PrePedal,
    PreAmp,
    PostCab,
}

/// The settings name of the pre-pedal position.
pub open spec fn pre_pedal_name() -> Seq<char> {
    seq!['p', 'r', 'e', '-', 'p', 'e', 'd', 'a', 'l']
}

/// The settings name of the pre-amp position.
pub open spec fn pre_amp_name() -> Seq<char> {
    seq!['p', 'r', 'e', '-', 'a', 'm', 'p']
}

/// The settings name of the post-cab position.
pub open spec fn post_cab_name() -> Seq<char> {
    seq!['p', 'o', 's', 't', '-', 'c', 'a', 'b']
}

/// Dropdown index of each position.
pub open spec fn index_of(p: EqPosition) -> u32 {
    match p {
        EqPosition::PrePedal => 0,
        EqPosition::PreAmp => 1,
        EqPosition::PostCab => 2,
    }
}

/// Position selected by a dropdown index; anything unknown means pre-amp.
pub open spec fn position_at(index: u32) -> EqPosition {
    if index == 0 {
        EqPosition::PrePedal
    } else if index == 2 {
        EqPosition::PostCab
    } else {
        EqPosition::PreAmp
    }
}

/// Settings name of each position.
pub open spec fn name_of(p: EqPosition) -> Seq<char> {
    match p {
        EqPosition::PrePedal => pre_pedal_name(),
        EqPosition::PreAmp => pre_amp_name(),
        EqPosition::PostCab => post_cab_name(),
    }
}

/// Position named by a settings string; anything unknown means pre-amp.
pub open spec fn position_named(s: Seq<char>) -> EqPosition {
    if s == pre_pedal_name() {
        EqPosition::PrePedal
    } else if s == post_cab_name() {
        EqPosition::PostCab
    } else {
        EqPosition::PreAmp
    }
}

impl EqPosition {
    /// The position shown at a dropdown index (unknown indices fall back to pre-amp).
    pub fn from_index(index: u32) -> (p: EqPosition)
        ensures
            p == position_at(index),
    {
        match index {
            0 => EqPosition::PrePedal,
            2 => EqPosition::PostCab,
            _ => EqPosition::PreAmp,
        }
    }

    /// The position a settings string names (unknown names fall back to pre-amp).
    pub fn from_setting(setting: &str) -> (p: EqPosition)
        ensures
            p == position_named(setting@),
    {
        proof {
            reveal_strlit("pre-pedal");
            reveal_strlit("post-cab");
            assert("pre-pedal"@ =~= pre_pedal_name());
            assert("post-cab"@ =~= post_cab_name());
        }
        if same_text(setting, "pre-pedal") {
            EqPosition::PrePedal
        } else if same_text(setting, "post-cab") {
            EqPosition::PostCab
        } else {
            EqPosition::PreAmp
        }
    }

    /// The dropdown index of this position.
    pub fn index(self) -> (i: u32)
        ensures
            i == index_of(self),
    {
        match self {
            EqPosition::PrePedal => 0,
            EqPosition::PreAmp => 1,
            EqPosition::PostCab => 2,
        }
    }

    /// The settings name of this position.
    pub fn setting(self) -> (s: &'static str)
        ensures
            s@ == name_of(self),
    {
        match self {
            EqPosition::PrePedal => {
                proof {
                    reveal_strlit("pre-pedal");
                    assert("pre-pedal"@ =~= pre_pedal_name());
                }
                "pre-pedal"
            },
            EqPosition::PreAmp => {
                proof {
                    reveal_strlit("pre-amp");
                    assert("pre-amp"@ =~= pre_amp_name());
                }
                "pre-amp"
            },
            EqPosition::PostCab => {
                proof {
                    reveal_strlit("post-cab");
                    assert("post-cab"@ =~= post_cab_name());
                }
                "post-cab"
            },
        }
    }
}

/// The settings name `post-ir`, which older profiles used for the last EQ position.
pub open spec fn post_ir_name() -> Seq<char> {
    seq!['p', 'o', 's', 't', '-', 'i', 'r']
}

/// The EQ position stored when applying an older profile: `pre-pedal` and
/// `post-ir` are kept, anything else becomes `pre-amp`.
pub open spec fn legacy_position_name(s: Seq<char>) -> Seq<char> {
    if s == pre_pedal_name() || s == post_ir_name() {
        s
    } else {
        pre_amp_name()
    }
}

/// The EQ position setting written when applying an older profile.
pub fn legacy_eq_setting<'a>(position: &'a str) -> (s: &'a str)
    ensures
        s@ == legacy_position_name(position@),
{
    proof {
        reveal_strlit("pre-pedal");
        reveal_strlit("post-ir");
        reveal_strlit("pre-amp");
        assert("pre-pedal"@ =~= pre_pedal_name());
        assert("post-ir"@ =~= post_ir_name());
        assert("pre-amp"@ =~= pre_amp_name());
    }
    if same_text(position, "pre-pedal") || same_text(position, "post-ir") {
        position
    } else {
        "pre-amp"
    }
}

/// Reading a position back from its dropdown index gives the same position.
pub proof fn lemma_index_round_trip(p: EqPosition)
    ensures
        position_at(index_of(p)) == p,
{
}

/// Reading a position back from its settings name gives the same position.
pub proof fn lemma_setting_round_trip(p: EqPosition)
    ensures
        position_named(name_of(p)) == p,
{
    assert(pre_pedal_name() != post_cab_name()) by {
        assert(pre_pedal_name()[1] != post_cab_name()[1]);
    }
    assert(pre_amp_name() != pre_pedal_name()) by {
        assert(pre_amp_name().len() != pre_pedal_name().len());
    }
    assert(pre_amp_name() != post_cab_name()) by {
        assert(pre_amp_name().len() != post_cab_name().len());
    }
}

/// An index read from the dropdown is stored back unchanged when it names a
/// position, and as the pre-amp index otherwise.
pub proof fn lemma_index_normalizes(i: u32)
    ensures
        index_of(position_at(i)) == (if i <= 2 { i } else { 1u32 }),
{
}

/// Canonicalizing a settings string keeps the known names and turns anything
/// else into the pre-amp name; doing it twice changes nothing more.
pub proof fn lemma_setting_normalizes(s: Seq<char>)
    ensures
        name_of(position_named(s)) == (if s == pre_pedal_name() || s == post_cab_name() {
            s
        } else {
            pre_amp_name()
        }),
        position_named(name_of(position_named(s))) == position_named(s),
{
    lemma_setting_round_trip(position_named(s));
}

/// Applying an older profile stores one of the three positions it knows
/// (`pre-pedal`, `pre-amp`, `post-ir`); a stored name is kept exactly when it
/// is one of them, so the default `pre-amp` stays `pre-amp`, and applying the
/// result again changes nothing.
pub proof fn lemma_legacy_setting(s: Seq<char>)
    ensures
        legacy_position_name(s) == seq!['p', 'r', 'e', '-', 'p', 'e', 'd', 'a', 'l']
            || legacy_position_name(s) == seq!['p', 'r', 'e', '-', 'a', 'm', 'p']
            || legacy_position_name(s) == seq!['p', 'o', 's', 't', '-', 'i', 'r'],
        (legacy_position_name(s) == s) <==> (s == seq!['p', 'r', 'e', '-', 'p', 'e', 'd', 'a', 'l']
            || s == seq!['p', 'r', 'e', '-', 'a', 'm', 'p'] || s == seq![
            'p',
            'o',
            's',
            't',
            '-',
            'i',
            'r',
        ]),
        legacy_position_name(s) != s ==> legacy_position_name(s) == seq![
            'p',
            'r',
            'e',
            '-',
            'a',
            'm',
            'p',
        ],
        legacy_position_name(legacy_position_name(s)) == legacy_position_name(s),
{
    assert(pre_amp_name() != pre_pedal_name()) by {
        assert(pre_amp_name().len() != pre_pedal_name().len());
    }
    assert(pre_amp_name() != post_ir_name()) by {
        assert(pre_amp_name()[3] != post_ir_name()[3]);
    }
}

} // verus!
