//! The native build: what it records, and the text it prepares before the
//! toolchain compiles and links a program.
pub mod diagnostics;
pub mod link;

use vstd::prelude::*;

use crate::runtime::diagnostics::BuildDiagnostics;
use crate::text::{
    char_is_whitespace, chars_of, lines_of, push_str, split_lines, to_owned_string, unicode_white_space,
};

verus! {

/// Turns a module's IR into an executable with the system toolchain.
#[derive(Debug)]
pub struct RuntimeStage {
    diagnostics: BuildDiagnostics,
}

impl RuntimeStage {
    pub closed spec fn build_diagnostics(self) -> BuildDiagnostics {
        self.diagnostics
    }

    pub fn new() -> (result: Self)
        ensures
            result.build_diagnostics().stages@.len() == 0,
            result.build_diagnostics().duration_ms == 0,
            result.build_diagnostics().output_path@ == Seq::<char>::empty(),
            result.build_diagnostics().object_files@.len() == 0,
            result.build_diagnostics().linked_libraries@.len() == 0,
    {
        RuntimeStage { diagnostics: BuildDiagnostics::new() }
    }

    pub fn diagnostics(&self) -> (result: &BuildDiagnostics)
        ensures
            *result == self.build_diagnostics(),
    {
        &self.diagnostics
    }
}


/// The number of white-space characters at the start of `s`.
pub open spec fn leading_space(s: Seq<char>, i: int) -> int
    decreases s.len() - i,
{
    if i >= s.len() || i < 0 || !unicode_white_space(s[i]) {
        i
    } else {
        leading_space(s, i + 1)
    }
}

/// `s` without its leading white space (`str::trim_start`).
pub open spec fn trim_start(s: Seq<char>) -> Seq<char> {
    s.subrange(leading_space(s, 0), s.len() as int)
}

/// A line that sets the target triple.
pub open spec fn is_triple_line(line: Seq<char>) -> bool {
    let t = trim_start(line);
    t.len() >= "target triple = "@.len() && t.subrange(0, "target triple = "@.len() as int) == "target triple = "@
}

/// The line that sets the target triple to `triple`.
pub open spec fn triple_line(triple: Seq<char>) -> Seq<char> {
    "target triple = \""@ + triple + "\"\n"@
}

/// The lines, each ended by a line feed, with every line that sets the
/// target triple replaced by one that sets it to `triple`.
pub open spec fn with_triple(lines: Seq<Seq<char>>, triple: Seq<char>) -> Seq<char>
    decreases lines.len(),
{
    if lines.len() == 0 {
        seq![]
    } else {
        with_triple(lines.drop_last(), triple) + if is_triple_line(lines.last()) {
            triple_line(triple)
        } else {
            lines.last() + "\n"@
        }
    }
}

/// The IR with its target triple set to `triple`: each line that sets a
/// triple is replaced (the lines then each end with a line feed); when no
/// line does, one is put in front of the IR.
pub open spec fn retargeted(ir: Seq<char>, triple: Seq<char>) -> Seq<char> {
    if exists|i: int| 0 <= i < lines_of(ir).len() && #[trigger] is_triple_line(lines_of(ir)[i]) {
        with_triple(lines_of(ir), triple)
    } else {
        triple_line(triple) + ir
    }
}

proof fn lemma_leading_space_bounds(s: Seq<char>, i: int)
    requires
        0 <= i <= s.len(),
    ensures
        i <= leading_space(s, i) <= s.len(),
    decreases s.len() - i,
{
    if i < s.len() && unicode_white_space(s[i]) {
        lemma_leading_space_bounds(s, i + 1);
    }
}

/// Whether a line sets the target triple.
fn sets_target_triple(line: &str) -> (result: bool)
    ensures
        result == is_triple_line(line@),
{
    let cs = chars_of(line);
    let mut i: usize = 0;
    while i < cs.len() && char_is_whitespace(cs[i])
        invariant
            i <= cs@.len(),
            cs@ == line@,
            leading_space(line@, 0) == leading_space(line@, i as int),
        decreases cs.len() - i,
    {
        i = i + 1;
    }
    proof {
        lemma_leading_space_bounds(line@, 0);
        assert(leading_space(line@, i as int) == i);
        assert(trim_start(line@) =~= line@.subrange(i as int, line@.len() as int));
    }
    let prefix = chars_of("target triple = ");
    if cs.len() - i < prefix.len() {
        return false;
    }
    let hl = cs.len();
    let mut k: usize = 0;
    while k < prefix.len()
        invariant
            hl == cs@.len(),
            prefix@ == "target triple = "@,
            i + prefix@.len() <= cs@.len(),
            cs@ == line@,
            trim_start(line@) == line@.subrange(i as int, line@.len() as int),
            k <= prefix@.len(),
            forall|j: int| 0 <= j < k ==> cs@[i + j] == prefix@[j],
        decreases prefix.len() - k,
    {
        assert(i + k < cs@.len());
        if cs[i + k] != prefix[k] {
            assert(trim_start(line@).subrange(0, prefix@.len() as int)[k as int] != prefix@[k as int]);
            return false;
        }
        k = k + 1;
    }
    assert(trim_start(line@).subrange(0, prefix@.len() as int) =~= prefix@);
    true
}

impl RuntimeStage {
    /// Sets the target triple of the IR to `target_triple`.
    pub fn rewrite_target_triple(&self, ir: &str, target_triple: &str) -> (result: String)
        ensures
            result@ == retargeted(ir@, target_triple@),
    {
        let lines = split_lines(ir);
        let ghost ls = lines@.map_values(|l: String| l@);
        let mut rewritten = String::new();
        let mut replaced = false;
        let mut k: usize = 0;
        while k < lines.len()
            invariant
                k <= lines@.len(),
                ls == lines@.map_values(|l: String| l@),
                rewritten@ == with_triple(ls.subrange(0, k as int), target_triple@),
                replaced == exists|i: int| 0 <= i < k && #[trigger] is_triple_line(ls[i]),
            decreases lines.len() - k,
        {
            let line = lines[k].as_str();
            let hit = sets_target_triple(line);
            if hit {
                push_str(&mut rewritten, "target triple = \"");
                push_str(&mut rewritten, target_triple);
                push_str(&mut rewritten, "\"\n");
                replaced = true;
            } else {
                push_str(&mut rewritten, line);
                push_str(&mut rewritten, "\n");
            }
            proof {
                let nxt = ls.subrange(0, k + 1);
                assert(nxt.drop_last() =~= ls.subrange(0, k as int));
                assert(nxt.last() == line@);
                assert(rewritten@ =~= with_triple(nxt, target_triple@));
                if hit {
                    assert(is_triple_line(ls[k as int]));
                }
            }
            k = k + 1;
        }
        assert(ls.subrange(0, ls.len() as int) =~= ls);
        if !replaced {
            let mut with_line = to_owned_string("target triple = \"");
            push_str(&mut with_line, target_triple);
            push_str(&mut with_line, "\"\n");
            push_str(&mut with_line, ir);
            with_line
        } else {
            rewritten
        }
    }

    /// The C source of the runtime the program is linked with.
    pub fn runtime_shim_source() -> (result: String)
        ensures
            result@ == RUNTIME_SHIM@,
    {
        to_owned_string(RUNTIME_SHIM)
    }
}

/// The C runtime that generated programs call into.
pub const RUNTIME_SHIM: &'static str = "#include <stdio.h>
#include <stdlib.h>

void glua_print(char *value) {
    if (value == NULL) {
        return;
    }

    fputs(value, stdout);
    fflush(stdout);
}

void *glua_table_new(void) {
    return calloc(1, 1);
}

void glua_table_set(void *table, char *key, char *value) {
    (void)table;
    (void)key;
    (void)value;
}

char *glua_table_get(void *table, char *key) {
    (void)table;
    (void)key;
    return NULL;
}
";
} // verus!
