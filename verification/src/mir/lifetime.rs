//! Live ranges of the variables and values of a function: where each is
//! defined, first and last used, the blocks it is live in, and whether it is
//! dead; with the checks and the report over them.
use vstd::prelude::*;

use crate::mir::ssa::{contains_name, sorted_by_name, sorted_name_positions, MirProgramPoint};
use crate::mir::types::{MirBlockId, MirValueId};
use crate::text::{decimal, push_decimal, push_str, str_eq, to_owned_string};

verus! {

/// The live range of a variable.
#[derive(Debug)]
pub struct MirVariableLifetime {
    pub storage: String,
    pub value_id: MirValueId,
    pub definition: Option<MirProgramPoint>,
    pub first_use: Option<MirProgramPoint>,
    pub last_use: Option<MirProgramPoint>,
    pub live_blocks: Vec<MirBlockId>,
    pub dead: bool,
}

/// The live range of a value.
#[derive(Debug)]
pub struct MirValueLifetime {
    pub value_id: MirValueId,
    pub definition: Option<MirProgramPoint>,
    pub uses: Vec<MirProgramPoint>,
    pub last_use: Option<MirProgramPoint>,
    pub live_blocks: Vec<MirBlockId>,
    pub dead: bool,
}

/// The live variables on entry to and exit from each block, and the live
/// ranges of the variables and values.
#[derive(Debug)]
pub struct MirLifetimeMetadata {
    pub live_in: Vec<(MirBlockId, Vec<String>)>,
    pub live_out: Vec<(MirBlockId, Vec<String>)>,
    pub variable_lifetimes: Vec<MirVariableLifetime>,
    pub value_lifetimes: Vec<MirValueLifetime>,
    pub dead_variables: Vec<String>,
    pub dead_values: Vec<MirValueId>,
}

/// The complaints about the variable live ranges `ls`: a use needs a
/// definition, and a dead variable has no use.
pub open spec fn variable_errors(ls: Seq<MirVariableLifetime>) -> Seq<Seq<char>>
    decreases ls.len(),
{
    if ls.len() == 0 {
        seq![]
    } else {
        let l = ls.last();
        variable_errors(ls.drop_last()) + (if l.first_use is Some && l.definition is None {
            seq!["live range for "@ + l.storage@ + " has a use without a definition"@]
        } else {
            seq![]
        }) + if l.dead && l.last_use is Some {
            seq!["dead variable "@ + l.storage@ + " has a recorded use"@]
        } else {
            seq![]
        }
    }
}

/// The complaints about the value live ranges `ls`: a use needs a
/// definition, and a dead value has no use.
pub open spec fn value_errors(ls: Seq<MirValueLifetime>) -> Seq<Seq<char>>
    decreases ls.len(),
{
    if ls.len() == 0 {
        seq![]
    } else {
        let l = ls.last();
        value_errors(ls.drop_last()) + (if l.uses@.len() > 0 && l.definition is None {
            seq!["value %"@ + decimal(l.value_id.0 as nat) + " is used before definition"@]
        } else {
            seq![]
        }) + if l.dead && l.last_use is Some {
            seq!["dead value %"@ + decimal(l.value_id.0 as nat) + " has a recorded use"@]
        } else {
            seq![]
        }
    }
}

/// The position of the first entry of `sets` for block `b`.
pub open spec fn entry_of(sets: Seq<(MirBlockId, Vec<String>)>, b: MirBlockId) -> Option<int>
    decreases sets.len(),
{
    if sets.len() == 0 {
        None
    } else {
        match entry_of(sets.drop_last(), b) {
            Some(i) => Some(i),
            None => if sets.last().0 == b {
                Some(sets.len() - 1)
            } else {
                None
            },
        }
    }
}

/// Whether some variable live range is recorded for `name`.
pub open spec fn has_lifetime(ls: Seq<MirVariableLifetime>, name: Seq<char>) -> bool {
    exists|i: int| 0 <= i < ls.len() && (#[trigger] ls[i]).storage@ == name
}

/// The complaints about the names `ins` live on entry to block `b` that are
/// also live on exit (`outs`) but have no live range.
pub open spec fn unknown_live(m: MirLifetimeMetadata, b: MirBlockId, ins: Seq<String>, outs: Seq<Seq<char>>) -> Seq<Seq<char>>
    decreases ins.len(),
{
    if ins.len() == 0 {
        seq![]
    } else {
        unknown_live(m, b, ins.drop_last(), outs) + if outs.contains(ins.last()@) && !has_lifetime(m.variable_lifetimes@, ins.last()@) {
            seq!["live set for block "@ + decimal(b.0 as nat) + " references unknown variable "@ + ins.last()@]
        } else {
            seq![]
        }
    }
}

/// The complaints about the live sets of the first `n` blocks of `live_in`.
pub open spec fn live_errors(m: MirLifetimeMetadata, n: nat) -> Seq<Seq<char>>
    decreases n,
{
    if n == 0 {
        seq![]
    } else {
        let (b, ins) = m.live_in@[n - 1];
        live_errors(m, (n - 1) as nat) + match entry_of(m.live_out@, b) {
            Some(o) => unknown_live(m, b, ins@, m.live_out@[o].1@.map_values(|s: String| s@)),
            None => seq![],
        }
    }
}

/// Everything wrong with the metadata `m`.
pub open spec fn lifetime_errors(m: MirLifetimeMetadata) -> Seq<Seq<char>> {
    variable_errors(m.variable_lifetimes@) + value_errors(m.value_lifetimes@) + live_errors(m, m.live_in@.len())
}

/// The line of a program point under `label`.
pub open spec fn point_report(label: Seq<char>, p: Option<MirProgramPoint>) -> Seq<char> {
    match p {
        Some(p) => "  "@ + label + ": Block"@ + decimal(p.block.0 as nat) + " @"@ + decimal(p.instruction_index as nat) + "\n"@,
        None => seq![],
    }
}

/// The report on one variable live range.
pub open spec fn lifetime_report(l: MirVariableLifetime) -> Seq<char> {
    "Variable "@ + l.storage@ + "\n"@ + point_report("Definition"@, l.definition) + point_report("Last Use"@, l.last_use)
        + "  Dead: "@ + (if l.dead {
        "true"@
    } else {
        "false"@
    }) + "\n"@
}

/// The reports on the live ranges at the positions `order`.
pub open spec fn lifetime_reports(ls: Seq<MirVariableLifetime>, order: Seq<int>) -> Seq<char>
    decreases order.len(),
{
    if order.len() == 0 {
        seq![]
    } else {
        lifetime_reports(ls, order.drop_last()) + lifetime_report(ls[order.last()])
    }
}

/// The position of the first entry of `sets` for block `b`.
fn find_entry(sets: &Vec<(MirBlockId, Vec<String>)>, b: MirBlockId) -> (result: Option<usize>)
    ensures
        result is None <==> entry_of(sets@, b) is None,
        result matches Some(k) ==> entry_of(sets@, b) == Some(k as int) && k < sets@.len(),
{
    let mut i: usize = 0;
    while i < sets.len()
        invariant
            i <= sets@.len(),
            entry_of(sets@.subrange(0, i as int), b) is None,
        decreases sets.len() - i,
    {
        proof {
            assert(sets@.subrange(0, i + 1).drop_last() =~= sets@.subrange(0, i as int));
        }
        if sets[i].0 == b {
            proof {
                assert(entry_of(sets@.subrange(0, i + 1), b) == Some(i as int));
                lemma_entry_prefix(sets@, i as int + 1, b);
            }
            return Some(i);
        }
        i = i + 1;
    }
    assert(sets@.subrange(0, sets@.len() as int) =~= sets@);
    None
}

/// An entry found in a prefix is found at the same place in the whole.
proof fn lemma_entry_prefix(sets: Seq<(MirBlockId, Vec<String>)>, k: int, b: MirBlockId)
    requires
        0 <= k <= sets.len(),
        entry_of(sets.subrange(0, k), b) is Some,
    ensures
        entry_of(sets, b) == entry_of(sets.subrange(0, k), b),
    decreases sets.len() - k,
{
    if k < sets.len() {
        assert(sets.subrange(0, k + 1).drop_last() =~= sets.subrange(0, k));
        lemma_entry_prefix(sets, k + 1, b);
    } else {
        assert(sets.subrange(0, k) =~= sets);
    }
}

/// Whether a live range is recorded for `name`.
fn lifetime_recorded(ls: &Vec<MirVariableLifetime>, name: &str) -> (result: bool)
    ensures
        result == has_lifetime(ls@, name@),
{
    let mut i: usize = 0;
    while i < ls.len()
        invariant
            i <= ls@.len(),
            forall|j: int| 0 <= j < i ==> (#[trigger] ls@[j]).storage@ != name@,
        decreases ls.len() - i,
    {
        if str_eq(ls[i].storage.as_str(), name) {
            return true;
        }
        i = i + 1;
    }
    false
}

/// Appends the line of a program point under `label`.
fn push_point(out: &mut String, label: &str, p: Option<MirProgramPoint>)
    ensures
        final(out)@ == old(out)@ + point_report(label@, p),
{
    match p {
        Some(p) => {
            push_str(out, "  ");
            push_str(out, label);
            push_str(out, ": Block");
            push_decimal(out, p.block.0);
            push_str(out, " @");
            push_decimal(out, p.instruction_index);
            push_str(out, "\n");
            assert(final(out)@ =~= old(out)@ + point_report(label@, Some(p)));
        },
        None => {
            assert(final(out)@ =~= old(out)@ + point_report(label@, None));
        },
    }
}

/// Checks and reports live ranges.
pub struct MirLifetimeAnalysis;

impl MirLifetimeAnalysis {
    /// Checks that used variables and values have definitions, that dead
    /// ones have no use, and that every variable live on both sides of a
    /// block has a live range.
    pub fn validate(metadata: &MirLifetimeMetadata) -> (result: Result<(), Vec<String>>)
        ensures
            match result {
                Ok(()) => lifetime_errors(*metadata).len() == 0,
                Err(errors) => lifetime_errors(*metadata).len() > 0 && errors@.map_values(|s: String| s@) == lifetime_errors(*metadata),
            },
    {
        let ghost m = *metadata;
        let mut errors: Vec<String> = Vec::new();
        let ls = &metadata.variable_lifetimes;
        let mut i: usize = 0;
        while i < ls.len()
            invariant
                i <= ls@.len(),
                errors@.map_values(|s: String| s@) == variable_errors(ls@.subrange(0, i as int)),
            decreases ls.len() - i,
        {
            proof {
                assert(ls@.subrange(0, i + 1).drop_last() =~= ls@.subrange(0, i as int));
            }
            let ghost e0 = errors@.map_values(|s: String| s@);
            let l = &ls[i];
            if l.first_use.is_some() && l.definition.is_none() {
                let mut e = to_owned_string("live range for ");
                push_str(&mut e, l.storage.as_str());
                push_str(&mut e, " has a use without a definition");
                errors.push(e);
            }
            let ghost e1 = errors@.map_values(|s: String| s@);
            if l.dead && l.last_use.is_some() {
                let mut e = to_owned_string("dead variable ");
                push_str(&mut e, l.storage.as_str());
                push_str(&mut e, " has a recorded use");
                errors.push(e);
            }
            proof {
                let a = if l.first_use is Some && l.definition is None {
                    seq!["live range for "@ + l.storage@ + " has a use without a definition"@]
                } else {
                    Seq::<Seq<char>>::empty()
                };
                let b = if l.dead && l.last_use is Some {
                    seq!["dead variable "@ + l.storage@ + " has a recorded use"@]
                } else {
                    Seq::<Seq<char>>::empty()
                };
                assert(e1 =~= e0 + a);
                assert(errors@.map_values(|s: String| s@) =~= e1 + b);
                assert(errors@.map_values(|s: String| s@) =~= variable_errors(ls@.subrange(0, i + 1)));
            }
            i = i + 1;
        }
        assert(ls@.subrange(0, i as int) =~= ls@);
        let ghost ve = errors@.map_values(|s: String| s@);
        let vs = &metadata.value_lifetimes;
        let mut i: usize = 0;
        while i < vs.len()
            invariant
                i <= vs@.len(),
                errors@.map_values(|s: String| s@) == ve + value_errors(vs@.subrange(0, i as int)),
            decreases vs.len() - i,
        {
            proof {
                assert(vs@.subrange(0, i + 1).drop_last() =~= vs@.subrange(0, i as int));
            }
            let ghost e0 = errors@.map_values(|s: String| s@);
            let l = &vs[i];
            if l.uses.len() > 0 && l.definition.is_none() {
                let mut e = to_owned_string("value %");
                push_decimal(&mut e, l.value_id.0);
                push_str(&mut e, " is used before definition");
                errors.push(e);
            }
            let ghost e1 = errors@.map_values(|s: String| s@);
            if l.dead && l.last_use.is_some() {
                let mut e = to_owned_string("dead value %");
                push_decimal(&mut e, l.value_id.0);
                push_str(&mut e, " has a recorded use");
                errors.push(e);
            }
            proof {
                let a = if l.uses@.len() > 0 && l.definition is None {
                    seq!["value %"@ + decimal(l.value_id.0 as nat) + " is used before definition"@]
                } else {
                    Seq::<Seq<char>>::empty()
                };
                let b = if l.dead && l.last_use is Some {
                    seq!["dead value %"@ + decimal(l.value_id.0 as nat) + " has a recorded use"@]
                } else {
                    Seq::<Seq<char>>::empty()
                };
                assert(e1 =~= e0 + a);
                assert(errors@.map_values(|s: String| s@) =~= e1 + b);
                assert(errors@.map_values(|s: String| s@) =~= ve + value_errors(vs@.subrange(0, i + 1)));
            }
            i = i + 1;
        }
        assert(vs@.subrange(0, i as int) =~= vs@);
        let ghost we = errors@.map_values(|s: String| s@);
        let mut k: usize = 0;
        while k < metadata.live_in.len()
            invariant
                k <= metadata.live_in@.len(),
                m == *metadata,
                errors@.map_values(|s: String| s@) == we + live_errors(m, k as nat),
            decreases metadata.live_in.len() - k,
        {
            let b = metadata.live_in[k].0;
            let ins = &metadata.live_in[k].1;
            let ghost ek = errors@.map_values(|s: String| s@);
            match find_entry(&metadata.live_out, b) {
                Some(o) => {
                    let outs = &metadata.live_out[o].1;
                    let ghost ov = outs@.map_values(|s: String| s@);
                    let mut j: usize = 0;
                    while j < ins.len()
                        invariant
                            j <= ins@.len(),
                            m == *metadata,
                            ov == outs@.map_values(|s: String| s@),
                            errors@.map_values(|s: String| s@) == ek + unknown_live(m, b, ins@.subrange(0, j as int), ov),
                        decreases ins.len() - j,
                    {
                        proof {
                            assert(ins@.subrange(0, j + 1).drop_last() =~= ins@.subrange(0, j as int));
                        }
                        let name = ins[j].as_str();
                        let ghost e0 = errors@.map_values(|s: String| s@);
                        proof {
                            assert(ins@.subrange(0, j + 1).last() == ins@[j as int]);
                            assert(name@ == ins@[j as int]@);
                        }
                        if contains_name(outs, name) && !lifetime_recorded(&metadata.variable_lifetimes, name) {
                            let mut e = to_owned_string("live set for block ");
                            push_decimal(&mut e, b.0);
                            push_str(&mut e, " references unknown variable ");
                            push_str(&mut e, name);
                            errors.push(e);
                        }
                        proof {
                            let a = if ov.contains(name@) && !has_lifetime(m.variable_lifetimes@, name@) {
                                seq!["live set for block "@ + decimal(b.0 as nat) + " references unknown variable "@ + name@]
                            } else {
                                Seq::<Seq<char>>::empty()
                            };
                            assert(errors@.map_values(|s: String| s@) =~= e0 + a);
                        }
                        assert(errors@.map_values(|s: String| s@) =~= ek + unknown_live(m, b, ins@.subrange(0, j + 1), ov));
                        j = j + 1;
                    }
                    assert(ins@.subrange(0, j as int) =~= ins@);
                },
                None => {},
            }
            assert(errors@.map_values(|s: String| s@) =~= we + live_errors(m, (k + 1) as nat));
            k = k + 1;
        }
        if errors.len() == 0 {
            Ok(())
        } else {
            Err(errors)
        }
    }

    /// The live range of each variable, sorted by name: its definition,
    /// its last use and whether it is dead.
    pub fn dump(metadata: &MirLifetimeMetadata) -> (result: String)
        ensures
            exists|order: Seq<int>|
                sorted_by_name(metadata.variable_lifetimes@.map_values(|l: MirVariableLifetime| l.storage@), order)
                    && result@ == lifetime_reports(metadata.variable_lifetimes@, order),
    {
        let ls = &metadata.variable_lifetimes;
        let ghost ns = ls@.map_values(|l: MirVariableLifetime| l.storage@);
        let mut names: Vec<String> = Vec::new();
        let mut i: usize = 0;
        while i < ls.len()
            invariant
                i <= ls@.len(),
                ns == ls@.map_values(|l: MirVariableLifetime| l.storage@),
                names@.map_values(|s: String| s@) == ns.subrange(0, i as int),
            decreases ls.len() - i,
        {
            let ghost before = names@.map_values(|s: String| s@);
            let name = ls[i].storage.clone();
            assert(name@ == ns[i as int]);
            names.push(name);
            assert(names@.map_values(|s: String| s@) =~= before.push(name@));
            assert(names@.map_values(|s: String| s@) =~= ns.subrange(0, i + 1));
            i = i + 1;
        }
        assert(ns.subrange(0, i as int) =~= ns);
        let order = sorted_name_positions(&names);
        let ghost ov = order@.map_values(|p: usize| p as int);
        let mut out = String::new();
        let mut k: usize = 0;
        while k < order.len()
            invariant
                k <= order@.len(),
                ov == order@.map_values(|p: usize| p as int),
                ns == ls@.map_values(|l: MirVariableLifetime| l.storage@),
                sorted_by_name(ns, ov),
                out@ == lifetime_reports(ls@, ov.subrange(0, k as int)),
            decreases order.len() - k,
        {
            proof {
                assert(ov.subrange(0, k + 1).drop_last() =~= ov.subrange(0, k as int));
                assert(ov[k as int] == order@[k as int] as int);
                assert(0 <= ov[k as int] < ns.len());
            }
            let l = &ls[order[k]];
            push_str(&mut out, "Variable ");
            push_str(&mut out, l.storage.as_str());
            push_str(&mut out, "\n");
            push_point(&mut out, "Definition", l.definition);
            push_point(&mut out, "Last Use", l.last_use);
            push_str(&mut out, "  Dead: ");
            if l.dead {
                push_str(&mut out, "true");
            } else {
                push_str(&mut out, "false");
            }
            push_str(&mut out, "\n");
            assert(out@ =~= lifetime_reports(ls@, ov.subrange(0, k + 1)));
            k = k + 1;
        }
        assert(ov.subrange(0, k as int) =~= ov);
        out
    }
}

} // verus!
