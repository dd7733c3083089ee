//! What the native build reports about its stages.
use vstd::prelude::*;

use crate::text::{decimal, push_decimal, push_decimal_u64, push_str, to_owned_string};

verus! {

/// The record of one native build.
#[derive(Debug, Clone)]
pub struct BuildDiagnostics {
    pub stages: Vec<BuildStage>,
    pub duration_ms: u64,
    pub output_path: String,
    pub object_files: Vec<String>,
    pub linked_libraries: Vec<String>,
}

/// One step of a native build and how it went.
#[derive(Debug, Clone)]
pub struct BuildStage {
    pub name: String,
    pub status: BuildStatus,
    pub duration_ms: u64,
    pub message: String,
}

#[derive(Debug, Clone, Copy, PartialEq, Eq, Structural)]
pub enum BuildStatus {
    Success,
    Warning,
    Error,
}

/// The tag a status is shown with.
pub open spec fn status_tag(status: BuildStatus) -> Seq<char> {
    match status {
        BuildStatus::Success => "OK"@,
        BuildStatus::Warning => "WARN"@,
        BuildStatus::Error => "ERR"@,
    }
}

/// One indented list item per string.
pub open spec fn list_items(items: Seq<String>) -> Seq<char>
    decreases items.len(),
{
    if items.len() == 0 {
        seq![]
    } else {
        list_items(items.drop_last()) + "    - "@ + items.last()@ + "\n"@
    }
}

/// One line per stage.
pub open spec fn stage_lines(stages: Seq<BuildStage>) -> Seq<char>
    decreases stages.len(),
{
    if stages.len() == 0 {
        seq![]
    } else {
        let s = stages.last();
        stage_lines(stages.drop_last()) + "  "@ + status_tag(s.status) + " "@ + s.name@ + " ("@ + decimal(
            s.duration_ms as nat,
        ) + "ms): "@ + s.message@ + "\n"@
    }
}

impl BuildDiagnostics {
    /// The report `format` writes: the totals, the object files and linked
    /// libraries when there are any, then one line per stage.
    pub open spec fn report(self) -> Seq<char> {
        "Build Diagnostics:\n"@ + "  Duration: "@ + decimal(self.duration_ms as nat) + "ms\n"@ + "  Output: "@
            + self.output_path@ + "\n"@ + "  Object Files: "@ + decimal(self.object_files@.len()) + "\n"@
            + "  Linked Libraries: "@ + decimal(self.linked_libraries@.len()) + "\n"@ + (if self.object_files@.len() > 0 {
            "  Object File List:\n"@ + list_items(self.object_files@)
        } else {
            seq![]
        }) + (if self.linked_libraries@.len() > 0 {
            "  Linked Library List:\n"@ + list_items(self.linked_libraries@)
        } else {
            seq![]
        }) + "\nStages:\n"@ + stage_lines(self.stages@)
    }

    pub fn new() -> (result: Self)
        ensures
            result.stages@.len() == 0,
            result.duration_ms == 0,
            result.output_path@ == Seq::<char>::empty(),
            result.object_files@.len() == 0,
            result.linked_libraries@.len() == 0,
    {
        BuildDiagnostics {
            stages: Vec::new(),
            duration_ms: 0,
            output_path: String::new(),
            object_files: Vec::new(),
            linked_libraries: Vec::new(),
        }
    }

    pub fn add_stage(&mut self, stage: BuildStage)
        ensures
            final(self).stages@ == old(self).stages@.push(stage),
            final(self).duration_ms == old(self).duration_ms,
            final(self).output_path == old(self).output_path,
            final(self).object_files == old(self).object_files,
            final(self).linked_libraries == old(self).linked_libraries,
    {
        self.stages.push(stage);
    }

    pub fn set_output_path(&mut self, path: String)
        ensures
            final(self).stages == old(self).stages,
            final(self).duration_ms == old(self).duration_ms,
            final(self).output_path == path,
            final(self).object_files == old(self).object_files,
            final(self).linked_libraries == old(self).linked_libraries,
    {
        self.output_path = path;
    }

    pub fn add_object_file(&mut self, file: String)
        ensures
            final(self).stages == old(self).stages,
            final(self).duration_ms == old(self).duration_ms,
            final(self).output_path == old(self).output_path,
            final(self).object_files@ == old(self).object_files@.push(file),
            final(self).linked_libraries == old(self).linked_libraries,
    {
        self.object_files.push(file);
    }

    pub fn add_linked_library(&mut self, lib: String)
        ensures
            final(self).stages == old(self).stages,
            final(self).duration_ms == old(self).duration_ms,
            final(self).output_path == old(self).output_path,
            final(self).object_files == old(self).object_files,
            final(self).linked_libraries@ == old(self).linked_libraries@.push(lib),
    {
        self.linked_libraries.push(lib);
    }

    /// Whether some stage failed.
    pub fn has_errors(&self) -> (result: bool)
        ensures
            result == exists|i: int| 0 <= i < self.stages@.len() && #[trigger] self.stages@[i].status == BuildStatus::Error,
    {
        let mut i: usize = 0;
        while i < self.stages.len()
            invariant
                i <= self.stages@.len(),
                forall|k: int| 0 <= k < i ==> #[trigger] self.stages@[k].status != BuildStatus::Error,
            decreases self.stages.len() - i,
        {
            if self.stages[i].status == BuildStatus::Error {
                return true;
            }
            i = i + 1;
        }
        false
    }

    pub fn format(&self) -> (result: String)
        ensures
            result@ == self.report(),
    {
        let mut output = to_owned_string("Build Diagnostics:\n");
        push_str(&mut output, "  Duration: ");
        push_decimal_u64(&mut output, self.duration_ms);
        push_str(&mut output, "ms\n");
        push_str(&mut output, "  Output: ");
        push_str(&mut output, self.output_path.as_str());
        push_str(&mut output, "\n");
        push_str(&mut output, "  Object Files: ");
        push_decimal(&mut output, self.object_files.len());
        push_str(&mut output, "\n");
        push_str(&mut output, "  Linked Libraries: ");
        push_decimal(&mut output, self.linked_libraries.len());
        push_str(&mut output, "\n");
        let ghost head = output@;
        if self.object_files.len() > 0 {
            push_str(&mut output, "  Object File List:\n");
            push_items(&mut output, &self.object_files);
        }
        let ghost middle = output@;
        if self.linked_libraries.len() > 0 {
            push_str(&mut output, "  Linked Library List:\n");
            push_items(&mut output, &self.linked_libraries);
        }
        push_str(&mut output, "\nStages:\n");
        let ghost before_stages = output@;
        let mut k: usize = 0;
        while k < self.stages.len()
            invariant
                k <= self.stages@.len(),
                output@ == before_stages + stage_lines(self.stages@.subrange(0, k as int)),
            decreases self.stages.len() - k,
        {
            let stage = &self.stages[k];
            push_str(&mut output, "  ");
            let tag = match stage.status {
                BuildStatus::Success => "OK",
                BuildStatus::Warning => "WARN",
                BuildStatus::Error => "ERR",
            };
            push_str(&mut output, tag);
            push_str(&mut output, " ");
            push_str(&mut output, stage.name.as_str());
            push_str(&mut output, " (");
            push_decimal_u64(&mut output, stage.duration_ms);
            push_str(&mut output, "ms): ");
            push_str(&mut output, stage.message.as_str());
            push_str(&mut output, "\n");
            proof {
                assert(self.stages@.subrange(0, k + 1).drop_last() =~= self.stages@.subrange(0, k as int));
                assert(output@ =~= before_stages + stage_lines(self.stages@.subrange(0, k + 1)));
            }
            k = k + 1;
        }
        assert(self.stages@.subrange(0, self.stages@.len() as int) =~= self.stages@);
        assert(output@ =~= self.report());
        output
    }
}

/// Appends one indented list item per string.
fn push_items(out: &mut String, items: &Vec<String>)
    ensures
        final(out)@ == old(out)@ + list_items(items@),
{
    let ghost base = out@;
    let mut k: usize = 0;
    while k < items.len()
        invariant
            k <= items@.len(),
            out@ == base + list_items(items@.subrange(0, k as int)),
        decreases items.len() - k,
    {
        push_str(out, "    - ");
        push_str(out, items[k].as_str());
        push_str(out, "\n");
        proof {
            assert(items@.subrange(0, k + 1).drop_last() =~= items@.subrange(0, k as int));
            assert(out@ =~= base + list_items(items@.subrange(0, k + 1)));
        }
        k = k + 1;
    }
    assert(items@.subrange(0, items@.len() as int) =~= items@);
}

impl Default for BuildDiagnostics {
    fn default() -> (result: Self)
        ensures
            result.stages@.len() == 0,
            result.duration_ms == 0,
            result.output_path@ == Seq::<char>::empty(),
            result.object_files@.len() == 0,
            result.linked_libraries@.len() == 0,
    {
        Self::new()
    }
}

} // verus!
