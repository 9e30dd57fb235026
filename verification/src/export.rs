//! Exporting skills to agent hosts: safe export names and input flags, the
//! export mode, and the set of skills a catalog exports.
use vstd::prelude::*;

use crate::contracts::InputDefinition;
use crate::text::{
    concat, debug_quoted, debug_str, is_ascii_alnum, is_ascii_alpha, join, joined,
    lemma_seq_less_asymmetric, lemma_seq_less_total, push_char, seq_less, str_eq, str_less,
    string_views,
};

verus! {

broadcast use vstd::seq_lib::group_to_multiset_ensures;

/// A skill as an agent host sees it.
#[derive(Clone, Debug, PartialEq, Eq)]
pub struct RunxExportSkill {
    pub name: String,
    pub description: String,
    pub inputs: Vec<(String, RunxExportSkillInput)>,
    pub runner_names: Vec<String>,
    pub requires_runner_selection: bool,
    pub abs_dir: String,
    pub mode: RunxExportMode,
}

/// How an exported skill runs: through runx, or as the runtime guide whose
/// instructions the host reads directly.
#[derive(Clone, Debug, PartialEq, Eq)]
pub enum RunxExportMode {
    Delegated,
    NativeInstructions { body: String },
}

/// An exported input flag.
#[derive(Clone, Debug, PartialEq, Eq)]
pub struct RunxExportSkillInput {
    pub required: bool,
    pub description: Option<String>,
}

/// Where skills are exported from: a root, explicit references, and the
/// official skill roots references may name.
#[derive(Clone, Debug)]
pub struct RunxExportLoadOptions<'a> {
    pub root: &'a str,
    pub refs: &'a Vec<String>,
    pub official_roots: Vec<String>,
}

/// Why exporting failed.
#[derive(Debug, PartialEq, Eq)]
pub enum RunxExportLoadError {
    InvalidArgs(String),
    Io { context: String, source: String },
    Parse(String),
}

impl RunxExportLoadError {
    /// The error's message.
    pub fn message(&self) -> (r: String)
        ensures
            self matches RunxExportLoadError::InvalidArgs(m) ==> r@ == m@,
            self matches RunxExportLoadError::Parse(m) ==> r@ == m@,
            self matches RunxExportLoadError::Io { context, source } ==> r@ == context@ + ": "@
                + source@,
    {
        match self {
            RunxExportLoadError::InvalidArgs(m) => m.clone(),
            RunxExportLoadError::Parse(m) => m.clone(),
            RunxExportLoadError::Io { context, source } => {
                let head = concat(context.as_str(), ": ");
                concat(head.as_str(), source.as_str())
            },
        }
    }
}

// ---------------------------------------------------------------------------
// Names
// ---------------------------------------------------------------------------
/// `s` split at every `/`.
pub open spec fn slash_segments(s: Seq<char>) -> Seq<Seq<char>>
    decreases s.len(),
{
    if s.len() == 0 {
        seq![Seq::empty()]
    } else {
        let prior = slash_segments(s.drop_last());
        if s.last() == '/' {
            prior.push(Seq::empty())
        } else {
            prior.update(prior.len() - 1, prior.last().push(s.last()))
        }
    }
}

proof fn lemma_slash_segments_nonempty(s: Seq<char>)
    ensures
        slash_segments(s).len() >= 1,
    decreases s.len(),
{
    if s.len() > 0 {
        lemma_slash_segments_nonempty(s.drop_last());
    }
}

pub open spec fn export_name_char(c: char) -> bool {
    is_ascii_alnum(c) || c == '-' || c == '_' || c == '.'
}

/// A segment of an exportable name: not empty, not `.` or `..`, not
/// beginning or ending with `-`, and made of ASCII letters, digits, `-`,
/// `_` and `.`.
pub open spec fn safe_segment(g: Seq<char>) -> bool {
    &&& g.len() > 0
    &&& g != "."@
    &&& g != ".."@
    &&& g[0] != '-'
    &&& g.last() != '-'
    &&& forall|i: int| 0 <= i < g.len() ==> export_name_char(#[trigger] g[i])
}

pub open spec fn unsafe_segment_message(name: Seq<char>) -> Seq<char> {
    "skill name "@ + debug_quoted(name) + " cannot be exported because it is not a safe path segment"@
}

pub open spec fn unnormalizable_message(name: Seq<char>) -> Seq<char> {
    "skill name "@ + debug_quoted(name)
        + " cannot be exported because it cannot be normalized to a safe name"@
}

/// The export name of a skill: its `/`-separated segments joined by `-`.
pub open spec fn export_name_spec(name: Seq<char>) -> Result<Seq<char>, Seq<char>> {
    if name.contains('\\') {
        Err(unsafe_segment_message(name))
    } else if exists|i: int|
        0 <= i < slash_segments(name).len() && !safe_segment(#[trigger] slash_segments(name)[i]) {
        Err(unnormalizable_message(name))
    } else {
        Ok(joined(slash_segments(name), "-"@))
    }
}

fn safe_segment_exec(g: &str) -> (r: bool)
    ensures
        r == safe_segment(g@),
{
    let chars = crate::text::chars_of(g);
    let n = chars.len();
    if n == 0 || str_eq(g, ".") || str_eq(g, "..") || chars[0] == '-' || chars[n - 1] == '-' {
        return false;
    }
    let mut i: usize = 0;
    while i < n
        invariant
            i <= n == chars@.len(),
            chars@ == g@,
            forall|j: int| 0 <= j < i ==> export_name_char(#[trigger] chars@[j]),
        decreases n - i,
    {
        let c = chars[i];
        if !((c >= 'a' && c <= 'z') || (c >= 'A' && c <= 'Z') || (c >= '0' && c <= '9') || c == '-'
            || c == '_' || c == '.') {
            assert(!export_name_char(chars@[i as int]));
            return false;
        }
        i = i + 1;
    }
    true
}

/// The `/`-separated segments of `name`.
fn split_slashes(name: &str) -> (r: Vec<String>)
    ensures
        string_views(r@) == slash_segments(name@),
{
    let chars = crate::text::chars_of(name);
    let mut segments: Vec<String> = Vec::new();
    segments.push(String::new());
    let mut i: usize = 0;
    assert(string_views(segments@) =~= slash_segments(name@.subrange(0, 0)));
    while i < chars.len()
        invariant
            i <= chars@.len(),
            chars@ == name@,
            segments@.len() >= 1,
            string_views(segments@) == slash_segments(name@.subrange(0, i as int)),
        decreases chars.len() - i,
    {
        let c = chars[i];
        let ghost before = string_views(segments@);
        assert(name@.subrange(0, i + 1).drop_last() =~= name@.subrange(0, i as int));
        if c == '/' {
            segments.push(String::new());
            assert(string_views(segments@) =~= before.push(Seq::empty()));
        } else {
            let last = segments.len() - 1;
            let mut current = segments.remove(last);
            push_char(&mut current, c);
            segments.push(current);
            assert(string_views(segments@) =~= before.update(
                before.len() - 1,
                before.last().push(c),
            ));
        }
        i = i + 1;
    }
    assert(name@.subrange(0, chars@.len() as int) =~= name@);
    segments
}

/// The export name of a skill name, or why it has none.
pub fn export_skill_name(name: &str) -> (r: Result<String, RunxExportLoadError>)
    ensures
        match export_name_spec(name@) {
            Ok(n) => r matches Ok(s) && s@ == n,
            Err(m) => r matches Err(RunxExportLoadError::InvalidArgs(s)) && s@ == m,
        },
{
    if crate::text::contains_char(name, '\\') {
        let a = concat("skill name ", debug_str(name).as_str());
        return Err(
            RunxExportLoadError::InvalidArgs(
                concat(a.as_str(), " cannot be exported because it is not a safe path segment"),
            ),
        );
    }
    let segments = split_slashes(name);
    let ghost sv = string_views(segments@);
    let mut i: usize = 0;
    while i < segments.len()
        invariant
            i <= segments@.len(),
            sv == string_views(segments@),
            sv == slash_segments(name@),
            !name@.contains('\\'),
            forall|j: int| 0 <= j < i ==> safe_segment(#[trigger] sv[j]),
        decreases segments.len() - i,
    {
        if !safe_segment_exec(segments[i].as_str()) {
            assert(!safe_segment(slash_segments(name@)[i as int]));
            let a = concat("skill name ", debug_str(name).as_str());
            return Err(
                RunxExportLoadError::InvalidArgs(
                    concat(
                        a.as_str(),
                        " cannot be exported because it cannot be normalized to a safe name",
                    ),
                ),
            );
        }
        i = i + 1;
    }
    Ok(join(&segments, "-"))
}

/// An exportable input flag: an ASCII letter or `_`, then ASCII letters,
/// digits and `_`.
pub open spec fn export_input_name(n: Seq<char>) -> bool {
    &&& n.len() > 0
    &&& (is_ascii_alpha(n[0]) || n[0] == '_')
    &&& forall|i: int| 0 <= i < n.len() ==> is_ascii_alnum(#[trigger] n[i]) || n[i] == '_'
}

/// Whether an input name can be exported as a flag.
pub fn is_export_input_name(name: &str) -> (r: bool)
    ensures
        r == export_input_name(name@),
{
    let chars = crate::text::chars_of(name);
    let n = chars.len();
    if n == 0 {
        return false;
    }
    let first = chars[0];
    if !((first >= 'a' && first <= 'z') || (first >= 'A' && first <= 'Z') || first == '_') {
        return false;
    }
    let mut i: usize = 0;
    while i < n
        invariant
            i <= n == chars@.len(),
            chars@ == name@,
            forall|j: int| 0 <= j < i ==> is_ascii_alnum(#[trigger] chars@[j]) || chars@[j] == '_',
        decreases n - i,
    {
        let c = chars[i];
        if !((c >= 'a' && c <= 'z') || (c >= 'A' && c <= 'Z') || (c >= '0' && c <= '9') || c
            == '_') {
            assert(!(is_ascii_alnum(chars@[i as int]) || chars@[i as int] == '_'));
            return false;
        }
        i = i + 1;
    }
    true
}

/// The flags runx itself owns.
pub open spec fn reserved_flag(n: Seq<char>) -> bool {
    n == "answers"@ || n == "credential"@ || n == "json"@ || n == "non_interactive"@ || n
        == "receipt_dir"@ || n == "run_id"@ || n == "secret_env"@
}

/// Whether a name is one of runx's own flags.
pub fn is_reserved_skill_flag(name: &str) -> (r: bool)
    ensures
        r == reserved_flag(name@),
{
    str_eq(name, "answers") || str_eq(name, "credential") || str_eq(name, "json") || str_eq(
        name,
        "non_interactive",
    ) || str_eq(name, "receipt_dir") || str_eq(name, "run_id") || str_eq(name, "secret_env")
}

pub open spec fn unsafe_flag_message(name: Seq<char>) -> Seq<char> {
    "skill input "@ + debug_quoted(name) + " cannot be exported because it is not a safe runx skill flag"@
}

/// Every input of an exported skill must be a safe flag; the first that is
/// not is reported.
pub fn validate_export_skill_inputs(inputs: &Vec<(String, InputDefinition)>) -> (r: Result<
    (),
    RunxExportLoadError,
>)
    ensures
        r is Ok <==> forall|i: int|
            0 <= i < inputs@.len() ==> export_input_name(#[trigger] inputs@[i].0@)
                && !reserved_flag(inputs@[i].0@),
        r matches Err(RunxExportLoadError::InvalidArgs(m)) ==> exists|i: int|
            0 <= i < inputs@.len() && m@ == unsafe_flag_message(#[trigger] inputs@[i].0@) && (
            !export_input_name(inputs@[i].0@) || reserved_flag(inputs@[i].0@)),
        r is Err ==> r matches Err(RunxExportLoadError::InvalidArgs(_)),
{
    let mut i: usize = 0;
    while i < inputs.len()
        invariant
            i <= inputs@.len(),
            forall|j: int|
                0 <= j < i ==> export_input_name(#[trigger] inputs@[j].0@) && !reserved_flag(
                    inputs@[j].0@,
                ),
        decreases inputs.len() - i,
    {
        let name = inputs[i].0.as_str();
        if !is_export_input_name(name) || is_reserved_skill_flag(name) {
            let a = concat("skill input ", debug_str(name).as_str());
            let m = concat(
                a.as_str(),
                " cannot be exported because it is not a safe runx skill flag",
            );
            assert(m@ == unsafe_flag_message(inputs@[i as int].0@));
            return Err(RunxExportLoadError::InvalidArgs(m));
        }
        i = i + 1;
    }
    Ok(())
}

// ---------------------------------------------------------------------------
// Runners and modes
// ---------------------------------------------------------------------------
/// A runner a skill's manifest declares.
#[derive(Debug)]
pub struct ExportRunner {
    pub default: bool,
    pub inputs: Vec<(String, InputDefinition)>,
}

/// The parts of a skill's runner manifest that export reads: its runners in
/// name order and whether the catalog lists it as internal.
#[derive(Debug)]
pub struct ExportManifest {
    pub runners: Vec<(String, ExportRunner)>,
    pub internal: bool,
}

/// The parts of a validated skill that export reads.
#[derive(Debug)]
pub struct ExportSkillSource {
    pub name: String,
    pub description: Option<String>,
    pub inputs: Vec<(String, InputDefinition)>,
    pub body: String,
    pub cli_tool: bool,
    pub command_file_name: Option<String>,
}

/// The first runner marked default at or after `i`.
pub open spec fn first_default(runners: Seq<(String, ExportRunner)>, i: int) -> Option<int>
    decreases runners.len() - i,
{
    if i < 0 || i >= runners.len() {
        None
    } else if runners[i].1.default {
        Some(i)
    } else {
        first_default(runners, i + 1)
    }
}

proof fn lemma_first_default_bounds(runners: Seq<(String, ExportRunner)>, i: int)
    ensures
        first_default(runners, i) matches Some(k) ==> 0 <= k < runners.len(),
    decreases runners.len() - i,
{
    if 0 <= i < runners.len() && !runners[i].1.default {
        lemma_first_default_bounds(runners, i + 1);
    }
}

/// The index of the default runner: the first marked default, else the
/// only runner.
pub open spec fn default_runner_index(runners: Seq<(String, ExportRunner)>) -> Option<int> {
    match first_default(runners, 0) {
        Some(k) => Some(k),
        None => if runners.len() == 1 {
            Some(0)
        } else {
            None
        },
    }
}

/// The default runner of a manifest is the first runner marked default;
/// when none is marked, a manifest with exactly one runner has that runner
/// as its default, and any other has none.
pub proof fn lemma_default_runner_choice(runners: Seq<(String, ExportRunner)>)
    ensures
        forall|k: int|
            0 <= k < runners.len() && (#[trigger] runners[k]).1.default && (forall|j: int|
                0 <= j < k ==> !(#[trigger] runners[j]).1.default) ==> default_runner_index(runners) == Some(k),
        (forall|k: int| 0 <= k < runners.len() ==> !(#[trigger] runners[k]).1.default) ==> default_runner_index(
            runners,
        ) == (if runners.len() == 1 {
            Some(0int)
        } else {
            None
        }),
        runners.len() == 1 ==> default_runner_index(runners) == Some(0int),
{
    assert forall|k: int|
        0 <= k < runners.len() && (#[trigger] runners[k]).1.default && (forall|j: int|
            0 <= j < k ==> !(#[trigger] runners[j]).1.default) implies default_runner_index(runners) == Some(k) by {
        lemma_first_default_finds(runners, 0, k);
    }
    if forall|k: int| 0 <= k < runners.len() ==> !(#[trigger] runners[k]).1.default {
        lemma_first_default_none(runners, 0);
    }
    if runners.len() == 1 {
        if runners[0].1.default {
            lemma_first_default_finds(runners, 0, 0);
        } else {
            lemma_first_default_none(runners, 0);
        }
    }
}

proof fn lemma_first_default_finds(runners: Seq<(String, ExportRunner)>, i: int, k: int)
    requires
        0 <= i <= k < runners.len(),
        runners[k].1.default,
        forall|j: int| i <= j < k ==> !(#[trigger] runners[j]).1.default,
    ensures
        first_default(runners, i) == Some(k),
    decreases k - i,
{
    if i < k {
        lemma_first_default_finds(runners, i + 1, k);
    }
}

proof fn lemma_first_default_none(runners: Seq<(String, ExportRunner)>, i: int)
    requires
        0 <= i,
        forall|j: int| i <= j < runners.len() ==> !(#[trigger] runners[j]).1.default,
    ensures
        first_default(runners, i) is None,
    decreases runners.len() - i,
{
    if i < runners.len() {
        lemma_first_default_none(runners, i + 1);
    }
}

/// A skill that declares no inputs of its own exports the inputs of its
/// manifest's only runner, whether or not that runner is marked default;
/// one that declares inputs exports its own.
pub proof fn lemma_single_runner_inputs(skill: ExportSkillSource, m: ExportManifest)
    ensures
        skill.inputs@.len() == 0 && m.runners@.len() == 1 ==> export_inputs_spec(skill, Some(m))
            == m.runners@[0].1.inputs@,
        skill.inputs@.len() > 0 ==> export_inputs_spec(skill, Some(m)) == skill.inputs@,
{
    lemma_default_runner_choice(m.runners@);
}

/// The index of a manifest's default runner.
pub fn default_runner(manifest: Option<&ExportManifest>) -> (r: Option<usize>)
    ensures
        match manifest {
            None => r is None,
            Some(m) => match default_runner_index(m.runners@) {
                Some(i) => r matches Some(k) && k == i && 0 <= i < m.runners@.len(),
                None => r is None,
            },
        },
{
    proof {
        if let Some(m) = manifest {
            lemma_first_default_bounds(m.runners@, 0);
        }
    }
    let mf = match manifest {
        Some(m) => m,
        None => {
            return None;
        },
    };
    let mut i: usize = 0;
    while i < mf.runners.len()
        invariant
            manifest == Some(mf),
            i <= mf.runners@.len(),
            first_default(mf.runners@, 0) == first_default(mf.runners@, i as int),
        decreases mf.runners.len() - i,
    {
        if mf.runners[i].1.default {
            assert(first_default(mf.runners@, i as int) == Some(i as int));
            return Some(i);
        }
        i = i + 1;
    }
    if mf.runners.len() == 1 {
        Some(0)
    } else {
        None
    }
}

/// The runtime guide: the `runx` skill whose CLI tool runs the `runx`
/// binary is exported as native instructions.
pub open spec fn is_runtime_guide(skill: ExportSkillSource) -> bool {
    skill.name@ == "runx"@ && skill.cli_tool && match skill.command_file_name {
        Some(f) => f@ == "runx"@,
        None => false,
    }
}

/// How a skill is exported.
pub fn export_mode(skill: &ExportSkillSource) -> (r: RunxExportMode)
    ensures
        is_runtime_guide(*skill) ==> (r matches RunxExportMode::NativeInstructions { body } && body@
            == skill.body@),
        !is_runtime_guide(*skill) ==> r is Delegated,
{
    let guide = str_eq(skill.name.as_str(), "runx") && skill.cli_tool && match &skill.command_file_name {
        Some(f) => str_eq(f.as_str(), "runx"),
        None => false,
    };
    if guide {
        RunxExportMode::NativeInstructions { body: skill.body.clone() }
    } else {
        RunxExportMode::Delegated
    }
}

fn clone_inputs(inputs: &Vec<(String, InputDefinition)>) -> (r: Vec<(String, RunxExportSkillInput)>)
    ensures
        r@.len() == inputs@.len(),
        forall|i: int|
            0 <= i < inputs@.len() ==> (#[trigger] r@[i]).0@ == inputs@[i].0@ && r@[i].1.required
                == inputs@[i].1.required,
{
    let mut out: Vec<(String, RunxExportSkillInput)> = Vec::new();
    let mut i: usize = 0;
    while i < inputs.len()
        invariant
            i <= inputs@.len(),
            out@.len() == i,
            forall|j: int|
                0 <= j < i ==> (#[trigger] out@[j]).0@ == inputs@[j].0@ && out@[j].1.required
                    == inputs@[j].1.required,
        decreases inputs.len() - i,
    {
        let (name, input) = &inputs[i];
        out.push(
            (
                name.clone(),
                RunxExportSkillInput {
                    required: input.required,
                    description: input.description.clone(),
                },
            ),
        );
        i = i + 1;
    }
    out
}

/// The inputs an exported skill declares: the skill's own, else its
/// default runner's.
pub open spec fn export_inputs_spec(
    skill: ExportSkillSource,
    manifest: Option<ExportManifest>,
) -> Seq<(String, InputDefinition)> {
    if skill.inputs@.len() > 0 {
        skill.inputs@
    } else {
        match manifest {
            Some(m) => match default_runner_index(m.runners@) {
                Some(i) => m.runners@[i].1.inputs@,
                None => Seq::empty(),
            },
            None => Seq::empty(),
        }
    }
}

pub open spec fn manifest_model(manifest: Option<&ExportManifest>) -> Option<ExportManifest> {
    match manifest {
        Some(m) => Some(*m),
        None => None,
    }
}

pub open spec fn inputs_exportable(ins: Seq<(String, InputDefinition)>) -> bool {
    forall|i: int|
        0 <= i < ins.len() ==> export_input_name(#[trigger] ins[i].0@) && !reserved_flag(ins[i].0@)
}

/// A runner must be chosen: several runners and no default.
pub open spec fn selection_required(manifest: Option<ExportManifest>) -> bool {
    match manifest {
        Some(m) => m.runners@.len() > 1 && default_runner_index(m.runners@) is None,
        None => false,
    }
}

pub open spec fn runner_names_spec(manifest: Option<ExportManifest>) -> Seq<Seq<char>> {
    match manifest {
        Some(m) => m.runners@.map_values(|p: (String, ExportRunner)| p.0@),
        None => Seq::empty(),
    }
}

/// Builds the exported view of one skill: its inputs must be safe flags,
/// then its name must normalize.
#[verifier::rlimit(40)]
pub fn load_export_skill(
    skill_dir: String,
    skill: &ExportSkillSource,
    manifest: Option<&ExportManifest>,
) -> (r: Result<RunxExportSkill, RunxExportLoadError>)
    ensures
        !inputs_exportable(export_inputs_spec(*skill, manifest_model(manifest))) ==> (r matches Err(
            RunxExportLoadError::InvalidArgs(m),
        ) && exists|i: int|
            0 <= i < export_inputs_spec(*skill, manifest_model(manifest)).len() && m@
                == unsafe_flag_message(
                #[trigger] export_inputs_spec(*skill, manifest_model(manifest))[i].0@,
            )),
        inputs_exportable(export_inputs_spec(*skill, manifest_model(manifest))) ==> match export_name_spec(
            skill.name@,
        ) {
            Err(m) => r matches Err(RunxExportLoadError::InvalidArgs(s)) && s@ == m,
            Ok(n) => r matches Ok(x) && x.name@ == n && x.abs_dir@ == skill_dir@ && x.description@
                == match skill.description {
                Some(d) => d@,
                None => "Run this skill through runx governance."@,
            } && x.inputs@.len() == export_inputs_spec(*skill, manifest_model(manifest)).len()
                && (forall|i: int|
                0 <= i < x.inputs@.len() ==> (#[trigger] x.inputs@[i]).0@ == export_inputs_spec(
                    *skill,
                    manifest_model(manifest),
                )[i].0@ && x.inputs@[i].1.required == export_inputs_spec(
                    *skill,
                    manifest_model(manifest),
                )[i].1.required) && x.runner_names@.map_values(|s: String| s@) == runner_names_spec(
                manifest_model(manifest),
            ) && x.requires_runner_selection == selection_required(manifest_model(manifest)) && (
            is_runtime_guide(*skill) ==> (x.mode matches RunxExportMode::NativeInstructions { body }
                && body@ == skill.body@)) && (!is_runtime_guide(*skill) ==> x.mode is Delegated)
        },
{
    let mode = export_mode(skill);
    let ghost expected = export_inputs_spec(*skill, manifest_model(manifest));
    let inputs: &Vec<(String, InputDefinition)> = if skill.inputs.len() > 0 {
        assert(skill.inputs@ == expected);
        &skill.inputs
    } else {
        assert(skill.inputs@ =~= Seq::<(String, InputDefinition)>::empty());
        match manifest {
            Some(m) => match default_runner(Some(m)) {
                Some(i) => {
                    assert(manifest_model(manifest) == Some(*m));
                    assert(default_runner_index(m.runners@) == Some(i as int));
                    assert(m.runners@[i as int].1.inputs@ == expected);
                    &m.runners[i].1.inputs
                },
                None => {
                    assert(skill.inputs@ == expected);
                    &skill.inputs
                },
            },
            None => {
                assert(skill.inputs@ == expected);
                &skill.inputs
            },
        }
    };
    assert(inputs@ == expected);
    match validate_export_skill_inputs(inputs) {
        Err(e) => {
            return Err(e);
        },
        Ok(()) => {},
    }
    let mut runner_names: Vec<String> = Vec::new();
    let mut requires_runner_selection = false;
    match manifest {
        Some(m) => {
            let mut i: usize = 0;
            while i < m.runners.len()
                invariant
                    i <= m.runners@.len(),
                    runner_names@.map_values(|s: String| s@) == m.runners@.subrange(
                        0,
                        i as int,
                    ).map_values(|p: (String, ExportRunner)| p.0@),
                decreases m.runners.len() - i,
            {
                let ghost before = runner_names@;
                let name = m.runners[i].0.clone();
                let ghost nv = name@;
                runner_names.push(name);
                assert(runner_names@ =~= before.push(name));
                assert(runner_names@.map_values(|s: String| s@) =~= before.map_values(
                    |s: String| s@,
                ).push(nv));
                assert(m.runners@.subrange(0, i + 1) =~= m.runners@.subrange(0, i as int).push(
                    m.runners@[i as int],
                ));
                assert(m.runners@.subrange(0, i + 1).map_values(|p: (String, ExportRunner)| p.0@)
                    =~= m.runners@.subrange(0, i as int).map_values(
                    |p: (String, ExportRunner)| p.0@,
                ).push(m.runners@[i as int].0@));
                i = i + 1;
            }
            assert(m.runners@.subrange(0, m.runners@.len() as int) =~= m.runners@);
            requires_runner_selection = m.runners.len() > 1 && default_runner(Some(m)).is_none();
        },
        None => {
            assert(runner_names@.map_values(|s: String| s@) =~= Seq::<Seq<char>>::empty());
        },
    }
    let name = match export_skill_name(skill.name.as_str()) {
        Ok(n) => n,
        Err(e) => {
            return Err(e);
        },
    };
    let description = match &skill.description {
        Some(d) => d.clone(),
        None => "Run this skill through runx governance.".to_owned(),
    };
    Ok(
        RunxExportSkill {
            name,
            description,
            inputs: clone_inputs(inputs),
            runner_names,
            requires_runner_selection,
            abs_dir: skill_dir,
            mode,
        },
    )
}

// ---------------------------------------------------------------------------
// Catalogs
// ---------------------------------------------------------------------------
pub open spec fn name_le(a: RunxExportSkill, b: RunxExportSkill) -> bool {
    !seq_less(b.name@, a.name@)
}

pub open spec fn sorted_by_name(s: Seq<RunxExportSkill>) -> bool {
    forall|i: int, j: int| 0 <= i < j < s.len() ==> name_le(#[trigger] s[i], #[trigger] s[j])
}

/// The index of a skill whose name is least.
fn least_name_index(v: &Vec<RunxExportSkill>) -> (k: usize)
    requires
        v@.len() > 0,
    ensures
        k < v@.len(),
        forall|j: int| 0 <= j < v@.len() ==> name_le(v@[k as int], #[trigger] v@[j]),
{
    let mut k: usize = 0;
    let mut i: usize = 1;
    proof {
        crate::text::lemma_seq_less_irreflexive(v@[0].name@);
    }
    while i < v.len()
        invariant
            1 <= i <= v@.len(),
            k < i,
            forall|j: int| 0 <= j < i ==> name_le(v@[k as int], #[trigger] v@[j]),
        decreases v.len() - i,
    {
        if str_less(v[i].name.as_str(), v[k].name.as_str()) {
            proof {
                let ni = v@[i as int].name@;
                let nk = v@[k as int].name@;
                crate::text::lemma_seq_less_irreflexive(ni);
                assert forall|j: int| 0 <= j < i + 1 implies name_le(v@[i as int], #[trigger] v@[j])
                    by {
                    if j < i {
                        let nj = v@[j].name@;
                        if seq_less(nj, ni) {
                            crate::text::lemma_seq_less_transitive(nj, ni, nk);
                        }
                    }
                }
            }
            k = i;
        } else {
            proof {
                let ni = v@[i as int].name@;
                let nk = v@[k as int].name@;
                crate::text::lemma_seq_less_total(ni, nk);
            }
        }
        i = i + 1;
    }
    k
}

/// Orders skills by name, keeping every skill.
fn sort_by_name(v: Vec<RunxExportSkill>) -> (r: Vec<RunxExportSkill>)
    ensures
        r@.to_multiset() == v@.to_multiset(),
        sorted_by_name(r@),
{
    let mut rest = v;
    let mut out: Vec<RunxExportSkill> = Vec::new();
    let ghost all = rest@.to_multiset();
    assert(out@.to_multiset().add(rest@.to_multiset()) =~= all);
    while rest.len() > 0
        invariant
            out@.to_multiset().add(rest@.to_multiset()) == all,
            all == v@.to_multiset(),
            sorted_by_name(out@),
            forall|a: int, b: int|
                0 <= a < out@.len() && 0 <= b < rest@.len() ==> name_le(
                    #[trigger] out@[a],
                    #[trigger] rest@[b],
                ),
        decreases rest.len(),
    {
        let k = least_name_index(&rest);
        let ghost before_rest = rest@;
        let ghost before_out = out@;
        let x = rest.remove(k);
        assert(rest@ =~= before_rest.remove(k as int));
        assert(x == before_rest[k as int]);
        out.push(x);
        assert(out@ =~= before_out.push(x));
        proof {
            assert(before_rest.remove(k as int).to_multiset() =~= before_rest.to_multiset().remove(
                x,
            ));
            assert(out@.to_multiset() =~= before_out.to_multiset().insert(x));
            assert(before_rest.to_multiset().count(x) > 0) by {
                assert(before_rest.contains(x)) by {
                    assert(before_rest[k as int] == x);
                }
            }
            assert(out@.to_multiset().add(rest@.to_multiset()) =~= all);
            assert forall|a: int, b: int|
                0 <= a < out@.len() && 0 <= b < rest@.len() implies name_le(
                #[trigger] out@[a],
                #[trigger] rest@[b],
            ) by {
                if a < before_out.len() {
                    if b < k {
                        assert(rest@[b] == before_rest[b]);
                    } else {
                        assert(rest@[b] == before_rest[b + 1]);
                    }
                } else {
                    if b < k {
                        assert(rest@[b] == before_rest[b]);
                    } else {
                        assert(rest@[b] == before_rest[b + 1]);
                    }
                }
            }
            assert forall|i: int, j: int| 0 <= i < j < out@.len() implies name_le(
                #[trigger] out@[i],
                #[trigger] out@[j],
            ) by {
                if j == before_out.len() {
                    assert(before_rest[k as int] == x);
                }
            }
        }
    }
    assert(rest@.to_multiset() =~= vstd::multiset::Multiset::empty());
    assert(out@.to_multiset() =~= all);
    out
}

pub open spec fn duplicate_name_message(name: Seq<char>) -> Seq<char> {
    "multiple skills normalize to the export name "@ + debug_quoted(name)
}

/// Orders skills by export name and rejects two skills with one name.
pub fn validate_unique_export_names(skills: &mut Vec<RunxExportSkill>) -> (r: Result<
    (),
    RunxExportLoadError,
>)
    ensures
        final(skills)@.to_multiset() == old(skills)@.to_multiset(),
        sorted_by_name(final(skills)@),
        r is Ok <==> forall|i: int| 0 <= i < final(skills)@.len() - 1 ==> #[trigger] final(skills)@[i].name@ != final(skills)@[i + 1].name@,
        r matches Err(e) ==> exists|i: int| 0 <= i < final(skills)@.len() - 1 && #[trigger] final(skills)@[i].name@ == final(skills)@[i + 1].name@ && e == RunxExportLoadError::InvalidArgs(e->InvalidArgs_0) && e->InvalidArgs_0@ == duplicate_name_message(final(skills)@[i].name@),
{
    let mut taken: Vec<RunxExportSkill> = Vec::new();
    std::mem::swap(&mut taken, skills);
    let sorted = sort_by_name(taken);
    *skills = sorted;
    let mut i: usize = 0;
    while skills.len() > 0 && i < skills.len() - 1
        invariant
            i <= skills@.len(),
            skills@.to_multiset() == old(skills)@.to_multiset(),
            sorted_by_name(skills@),
            forall|j: int| 0 <= j < i ==> #[trigger] skills@[j].name@ != skills@[j + 1].name@,
        decreases skills.len() - i,
    {
        if str_eq(skills[i].name.as_str(), skills[i + 1].name.as_str()) {
            let a = concat(
                "multiple skills normalize to the export name ",
                debug_str(skills[i].name.as_str()).as_str(),
            );
            return Err(RunxExportLoadError::InvalidArgs(a));
        }
        i = i + 1;
    }
    Ok(())
}

/// A skill found in a catalog, as read from disk: its directory, its
/// validated skill and its runner manifest, if any.
#[derive(Debug)]
pub struct ExportCandidate {
    pub skill_dir: String,
    pub skill: ExportSkillSource,
    pub manifest: Option<ExportManifest>,
}

/// A catalog walk leaves out internal skills; explicit references do not.
pub open spec fn exported_candidate(c: ExportCandidate, explicit: bool) -> bool {
    explicit || !(c.manifest matches Some(m) && m.internal)
}

/// A candidate that exports cleanly: its inputs are safe flags and its
/// name gives an export name.
pub open spec fn candidate_loads(c: ExportCandidate) -> bool {
    inputs_exportable(export_inputs_spec(c.skill, c.manifest)) && export_name_spec(c.skill.name@) is Ok
}

/// The export name of a candidate that has one.
pub open spec fn candidate_name(c: ExportCandidate) -> Seq<char> {
    export_name_spec(c.skill.name@)->Ok_0
}

/// A skill stands for a candidate: it bears the candidate's export name,
/// and needs a runner chosen exactly when the candidate's manifest has
/// several runners and no default.
pub open spec fn names_candidate(s: RunxExportSkill, c: ExportCandidate) -> bool {
    s.name@ == candidate_name(c) && s.requires_runner_selection == selection_required(c.manifest)
}

/// Every exported candidate loads, and no two of them share an export name.
pub open spec fn candidates_export(cands: Seq<ExportCandidate>, explicit: bool) -> bool {
    &&& forall|j: int|
        0 <= j < cands.len() && exported_candidate(cands[j], explicit) ==> candidate_loads(
            #[trigger] cands[j],
        )
    &&& forall|j1: int, j2: int|
        0 <= j1 < j2 < cands.len() && exported_candidate(cands[j1], explicit) && exported_candidate(
            cands[j2],
            explicit,
        ) ==> candidate_name(#[trigger] cands[j1]) != candidate_name(#[trigger] cands[j2])
}

/// An element at two places occurs twice.
proof fn lemma_two_places_count<A>(s: Seq<A>, k1: int, k2: int)
    requires
        0 <= k1 < k2 < s.len(),
        s[k1] == s[k2],
    ensures
        s.to_multiset().count(s[k1]) >= 2,
{
    broadcast use vstd::multiset::group_multiset_axioms;

    let s0 = s.subrange(0, k2);
    let s1 = s.subrange(k2, s.len() as int);
    assert(s == s0 + s1);
    vstd::seq_lib::lemma_multiset_commutative(s0, s1);
    assert(s0[k1] == s[k1]);
    assert(s0.contains(s[k1]));
    assert(s1[0] == s[k1]);
    assert(s1.contains(s[k1]));
}

/// An element that occurs twice is at two places.
proof fn lemma_count_two_places<A>(s: Seq<A>, x: A)
    requires
        s.to_multiset().count(x) >= 2,
    ensures
        exists|k1: int, k2: int| 0 <= k1 < k2 < s.len() && s[k1] == x && s[k2] == x,
    decreases s.len(),
{
    broadcast use vstd::multiset::group_multiset_axioms;

    if s.len() == 0 {
        assert(s.to_multiset() =~= vstd::multiset::Multiset::empty());
    } else {
        let d = s.drop_last();
        assert(s == d.push(s.last()));
        if s.last() == x {
            assert(d.to_multiset().count(x) >= 1);
            assert(d.contains(x));
            let k1 = choose|k: int| 0 <= k < d.len() && d[k] == x;
            assert(s[k1] == x && s[s.len() - 1] == x);
        } else {
            lemma_count_two_places(d, x);
            let (k1, k2) = choose|k1: int, k2: int| 0 <= k1 < k2 < d.len() && d[k1] == x && d[k2] == x;
            assert(s[k1] == x && s[k2] == x);
        }
    }
}

/// Two skills of one name stay two skills of one name under reordering.
proof fn lemma_shared_name_carries(s: Seq<RunxExportSkill>, t: Seq<RunxExportSkill>, k1: int, k2: int)
    requires
        s.to_multiset() == t.to_multiset(),
        0 <= k1 < s.len(),
        0 <= k2 < s.len(),
        k1 != k2,
        s[k1].name@ == s[k2].name@,
    ensures
        exists|p: int, q: int|
            0 <= p < t.len() && 0 <= q < t.len() && p != q && #[trigger] t[p] == s[k1] && #[trigger] t[q]
                == s[k2],
{
    if s[k1] == s[k2] {
        if k1 < k2 {
            lemma_two_places_count(s, k1, k2);
        } else {
            lemma_two_places_count(s, k2, k1);
        }
        lemma_count_two_places(t, s[k1]);
        let (p, q) = choose|p: int, q: int| 0 <= p < q < t.len() && t[p] == s[k1] && t[q] == s[k1];
        assert(t[p] == s[k1] && t[q] == s[k2]);
    } else {
        assert(s.contains(s[k1]));
        assert(s.contains(s[k2]));
        assert(t.to_multiset().count(s[k1]) > 0);
        assert(t.to_multiset().count(s[k2]) > 0);
        assert(t.contains(s[k1]));
        assert(t.contains(s[k2]));
        let p = choose|p: int| 0 <= p < t.len() && t[p] == s[k1];
        let q = choose|q: int| 0 <= q < t.len() && t[q] == s[k2];
        assert(t[p] == s[k1] && t[q] == s[k2]);
    }
}

/// Sorted by name with neighbours apart, no two skills share a name.
proof fn lemma_sorted_distinct(s: Seq<RunxExportSkill>, i: int, j: int)
    requires
        sorted_by_name(s),
        forall|k: int| 0 <= k < s.len() - 1 ==> #[trigger] s[k].name@ != s[k + 1].name@,
        0 <= i < j < s.len(),
    ensures
        s[i].name@ != s[j].name@,
{
    assert(name_le(s[i], s[i + 1]));
    assert(s[i].name@ != s[i + 1].name@);
    lemma_seq_less_total(s[i].name@, s[i + 1].name@);
    assert(seq_less(s[i].name@, s[i + 1].name@));
    if j > i + 1 {
        assert(name_le(s[i + 1], s[j]));
        if s[i].name@ == s[j].name@ {
            lemma_seq_less_asymmetric(s[i].name@, s[i + 1].name@);
        }
    }
}

/// How loaded skills stand for the exported candidates: `idx[k]` is the
/// candidate that `skills[k]` was built from, in candidate order, and every
/// exported candidate loaded and was built.
pub open spec fn tracked_from(
    cs: Seq<ExportCandidate>,
    explicit: bool,
    idx: Seq<int>,
    skills: Seq<RunxExportSkill>,
) -> bool {
    &&& idx.len() == skills.len()
    &&& forall|k: int|
        0 <= k < idx.len() ==> 0 <= #[trigger] idx[k] < cs.len() && exported_candidate(cs[idx[k]], explicit)
            && candidate_loads(cs[idx[k]]) && names_candidate(skills[k], cs[idx[k]])
    &&& forall|k1: int, k2: int| 0 <= k1 < k2 < idx.len() ==> #[trigger] idx[k1] < #[trigger] idx[k2]
    &&& forall|j: int|
        0 <= j < cs.len() && exported_candidate(cs[j], explicit) ==> candidate_loads(#[trigger] cs[j])
            && exists|k: int| 0 <= k < idx.len() && idx[k] == j
}

/// The exported skills are those of the exported candidates: each exported
/// candidate is stood for by a skill, and each skill stands for one.
pub open spec fn exports_cover(cs: Seq<ExportCandidate>, explicit: bool, v: Seq<RunxExportSkill>) -> bool {
    &&& forall|j: int|
        #![trigger cs[j]]
        0 <= j < cs.len() && exported_candidate(cs[j], explicit) ==> exists|k: int|
            0 <= k < v.len() && #[trigger] names_candidate(v[k], cs[j])
    &&& forall|s: RunxExportSkill|
        #![trigger v.contains(s)]
        v.contains(s) ==> exists|j: int|
            0 <= j < cs.len() && exported_candidate(cs[j], explicit) && #[trigger] names_candidate(s, cs[j])
}

proof fn lemma_export_names_cover(
    cs: Seq<ExportCandidate>,
    explicit: bool,
    idx: Seq<int>,
    before: Seq<RunxExportSkill>,
    after: Seq<RunxExportSkill>,
)
    requires
        tracked_from(cs, explicit, idx, before),
        before.to_multiset() == after.to_multiset(),
    ensures
        exports_cover(cs, explicit, after),
{
    assert forall|j: int| #![trigger cs[j]] 0 <= j < cs.len() && exported_candidate(cs[j], explicit) implies exists|k: int|
        0 <= k < after.len() && #[trigger] names_candidate(after[k], cs[j]) by {
        let k = choose|k: int| 0 <= k < idx.len() && idx[k] == j;
        assert(before.contains(before[k]));
        vstd::seq_lib::to_multiset_contains(before, before[k]);
        vstd::seq_lib::to_multiset_contains(after, before[k]);
        let p = choose|p: int| 0 <= p < after.len() && after[p] == before[k];
        assert(names_candidate(after[p], cs[j]));
    }
    assert forall|s: RunxExportSkill| #![trigger after.contains(s)] after.contains(s) implies exists|j: int|
        0 <= j < cs.len() && exported_candidate(cs[j], explicit) && #[trigger] names_candidate(s, cs[j]) by {
        let p = choose|p: int| 0 <= p < after.len() && after[p] == s;
        lemma_skill_from_candidate(cs, explicit, idx, before, after, p);
    }
}

proof fn lemma_skill_from_candidate(
    cs: Seq<ExportCandidate>,
    explicit: bool,
    idx: Seq<int>,
    before: Seq<RunxExportSkill>,
    after: Seq<RunxExportSkill>,
    p: int,
)
    requires
        tracked_from(cs, explicit, idx, before),
        before.to_multiset() == after.to_multiset(),
        0 <= p < after.len(),
    ensures
        exists|j: int|
            0 <= j < cs.len() && exported_candidate(cs[j], explicit) && #[trigger] names_candidate(
                after[p],
                cs[j],
            ),
{
    assert(after.contains(after[p]));
    vstd::seq_lib::to_multiset_contains(after, after[p]);
    vstd::seq_lib::to_multiset_contains(before, after[p]);
    assert(before.contains(after[p]));
    let k = choose|k: int| 0 <= k < before.len() && before[k] == after[p];
    assert(0 <= k < idx.len());
    let j = idx[k];
    assert(0 <= j < cs.len() && exported_candidate(cs[j], explicit));
    assert(before[k].name@ == candidate_name(cs[j]));
    assert(names_candidate(after[p], cs[j]));
}

proof fn lemma_export_duplicate_found(
    cs: Seq<ExportCandidate>,
    explicit: bool,
    idx: Seq<int>,
    before: Seq<RunxExportSkill>,
    after: Seq<RunxExportSkill>,
    e: RunxExportLoadError,
)
    requires
        tracked_from(cs, explicit, idx, before),
        before.to_multiset() == after.to_multiset(),
        exists|i: int|
            0 <= i < after.len() - 1 && #[trigger] after[i].name@ == after[i + 1].name@ && e
                == RunxExportLoadError::InvalidArgs(e->InvalidArgs_0) && e->InvalidArgs_0@
                == duplicate_name_message(after[i].name@),
    ensures
        !candidates_export(cs, explicit),
        exists|j1: int, j2: int|
            0 <= j1 < j2 < cs.len() && exported_candidate(cs[j1], explicit) && exported_candidate(
                cs[j2],
                explicit,
            ) && candidate_name(#[trigger] cs[j1]) == candidate_name(#[trigger] cs[j2]) && e
                == RunxExportLoadError::InvalidArgs(e->InvalidArgs_0) && e->InvalidArgs_0@
                == duplicate_name_message(candidate_name(cs[j1])),
{
    let i0 = choose|i0: int|
        0 <= i0 < after.len() - 1 && #[trigger] after[i0].name@ == after[i0 + 1].name@ && e
            == RunxExportLoadError::InvalidArgs(e->InvalidArgs_0) && e->InvalidArgs_0@
            == duplicate_name_message(after[i0].name@);
    lemma_shared_name_carries(after, before, i0, i0 + 1);
    let (p, q) = choose|p: int, q: int|
        0 <= p < before.len() && 0 <= q < before.len() && p != q && #[trigger] before[p] == after[i0]
            && #[trigger] before[q] == after[i0 + 1];
    let a = if idx[p] < idx[q] {
        p
    } else {
        q
    };
    let b = if idx[p] < idx[q] {
        q
    } else {
        p
    };
    if p < q {
        assert(idx[p] < idx[q]);
    } else {
        assert(idx[q] < idx[p]);
    }
    assert(idx[a] < idx[b]);
    assert(candidate_name(cs[idx[a]]) == candidate_name(cs[idx[b]]));
    assert(candidate_name(cs[idx[a]]) == after[i0].name@);
}

proof fn lemma_export_names_distinct(
    cs: Seq<ExportCandidate>,
    explicit: bool,
    idx: Seq<int>,
    before: Seq<RunxExportSkill>,
    after: Seq<RunxExportSkill>,
)
    requires
        tracked_from(cs, explicit, idx, before),
        before.to_multiset() == after.to_multiset(),
        sorted_by_name(after),
        forall|i: int| 0 <= i < after.len() - 1 ==> #[trigger] after[i].name@ != after[i + 1].name@,
    ensures
        candidates_export(cs, explicit),
{
    assert forall|j1: int, j2: int|
        0 <= j1 < j2 < cs.len() && exported_candidate(cs[j1], explicit) && exported_candidate(
            cs[j2],
            explicit,
        ) implies candidate_name(#[trigger] cs[j1]) != candidate_name(#[trigger] cs[j2]) by {
        let k1 = choose|k: int| 0 <= k < idx.len() && idx[k] == j1;
        let k2 = choose|k: int| 0 <= k < idx.len() && idx[k] == j2;
        if candidate_name(cs[j1]) == candidate_name(cs[j2]) {
            lemma_shared_name_carries(before, after, k1, k2);
            let (p, q) = choose|p: int, q: int|
                0 <= p < after.len() && 0 <= q < after.len() && p != q && #[trigger] after[p] == before[k1]
                    && #[trigger] after[q] == before[k2];
            if p < q {
                lemma_sorted_distinct(after, p, q);
            } else {
                lemma_sorted_distinct(after, q, p);
            }
        }
    }
}

/// What an export gives back, stated over its candidates: every exported
/// skill bears the SKILL.md name of an exported candidate with its `/`
/// turned into `-`, and needs a runner chosen exactly when that candidate's
/// manifest has several runners and no default; a catalog walk (no
/// explicit references) exports no internal skill.
pub proof fn lemma_exported_skills_name_their_candidates(
    cs: Seq<ExportCandidate>,
    explicit: bool,
    v: Seq<RunxExportSkill>,
)
    requires
        candidates_export(cs, explicit),
        exports_cover(cs, explicit, v),
    ensures
        forall|s: RunxExportSkill|
            #![trigger v.contains(s)]
            v.contains(s) ==> exists|j: int|
                0 <= j < cs.len() && s.name@ == joined(slash_segments(#[trigger] cs[j].skill.name@), "-"@)
                    && s.requires_runner_selection == selection_required(cs[j].manifest) && (!explicit
                    ==> !(cs[j].manifest matches Some(m) && m.internal)),
{
    assert forall|s: RunxExportSkill| #![trigger v.contains(s)] v.contains(s) implies exists|j: int|
        0 <= j < cs.len() && s.name@ == joined(slash_segments(#[trigger] cs[j].skill.name@), "-"@)
            && s.requires_runner_selection == selection_required(cs[j].manifest) && (!explicit ==> !(
        cs[j].manifest matches Some(m) && m.internal)) by {
        let j = choose|j: int|
            0 <= j < cs.len() && exported_candidate(cs[j], explicit) && #[trigger] names_candidate(s, cs[j]);
        assert(candidate_loads(cs[j]));
        assert(s.name@ == joined(slash_segments(cs[j].skill.name@), "-"@));
    }
}

/// What exporting gives back, in one statement. When it succeeds the names
/// strictly increase, and every skill bears the SKILL.md name of an
/// exported candidate with its `/` turned into `-`, needs a runner chosen
/// exactly when that candidate's manifest has several runners and no
/// default, and is internal to no catalog walk. It fails when two exported
/// candidates normalize to one name, or when an exported candidate's
/// inputs hold a reserved or unsafe flag name.
pub proof fn lemma_export_law(cs: Seq<ExportCandidate>, explicit: bool, v: Seq<RunxExportSkill>)
    requires
        candidates_export(cs, explicit),
        sorted_by_name(v),
        forall|i: int| 0 <= i < v.len() - 1 ==> #[trigger] v[i].name@ != v[i + 1].name@,
        exports_cover(cs, explicit, v),
    ensures
        forall|i: int, j: int| 0 <= i < j < v.len() ==> seq_less(#[trigger] v[i].name@, #[trigger] v[j].name@),
        forall|s: RunxExportSkill|
            #![trigger v.contains(s)]
            v.contains(s) ==> exists|j: int|
                0 <= j < cs.len() && s.name@ == joined(slash_segments(#[trigger] cs[j].skill.name@), "-"@)
                    && s.requires_runner_selection == selection_required(cs[j].manifest) && (!explicit
                    ==> !(cs[j].manifest matches Some(m) && m.internal)),
{
    lemma_exported_skills_name_their_candidates(cs, explicit, v);
    assert forall|i: int, j: int| 0 <= i < j < v.len() implies seq_less(
        #[trigger] v[i].name@,
        #[trigger] v[j].name@,
    ) by {
        lemma_sorted_distinct(v, i, j);
        assert(name_le(v[i], v[j]));
        lemma_seq_less_total(v[i].name@, v[j].name@);
    }
}

/// Exporting fails on two exported candidates that normalize to one name,
/// and on an exported candidate whose inputs hold a reserved flag name or a
/// name that is no safe flag.
pub proof fn lemma_export_refusals(cs: Seq<ExportCandidate>, explicit: bool, j1: int, j2: int, k: int)
    ensures
        0 <= j1 < j2 < cs.len() && exported_candidate(cs[j1], explicit) && exported_candidate(cs[j2], explicit)
            && candidate_name(cs[j1]) == candidate_name(cs[j2]) ==> !candidates_export(cs, explicit),
        0 <= j1 < cs.len() && exported_candidate(cs[j1], explicit) && 0 <= k < export_inputs_spec(
            cs[j1].skill,
            cs[j1].manifest,
        ).len() && (reserved_flag(export_inputs_spec(cs[j1].skill, cs[j1].manifest)[k].0@)
            || !export_input_name(export_inputs_spec(cs[j1].skill, cs[j1].manifest)[k].0@))
            ==> !candidates_export(cs, explicit),
{
    if 0 <= j1 < cs.len() && exported_candidate(cs[j1], explicit) && 0 <= k < export_inputs_spec(
        cs[j1].skill,
        cs[j1].manifest,
    ).len() && (reserved_flag(export_inputs_spec(cs[j1].skill, cs[j1].manifest)[k].0@)
        || !export_input_name(export_inputs_spec(cs[j1].skill, cs[j1].manifest)[k].0@)) {
        assert(!inputs_exportable(export_inputs_spec(cs[j1].skill, cs[j1].manifest)));
        assert(!candidate_loads(cs[j1]));
    }
}

/// The skills to export from found candidates: internal skills are left
/// out of a catalog walk, each skill is built in order (the first failure
/// is reported), and the result is ordered by unique export name.
#[verifier::rlimit(40)]
pub fn load_export_skills_with_options(
    options: &RunxExportLoadOptions,
    candidates: Vec<ExportCandidate>,
) -> (r: Result<Vec<RunxExportSkill>, RunxExportLoadError>)
    ensures
        r is Ok <==> candidates_export(candidates@, options.refs@.len() > 0),
        r matches Ok(v) ==> sorted_by_name(v@) && (forall|i: int|
            0 <= i < v@.len() - 1 ==> #[trigger] v@[i].name@ != v@[i + 1].name@),
        r matches Ok(v) ==> v@.len() == candidates@.filter(
            |c: ExportCandidate| exported_candidate(c, options.refs@.len() > 0),
        ).len(),
        r matches Ok(v) ==> exports_cover(candidates@, options.refs@.len() > 0, v@),
        (r is Err && forall|j: int|
            0 <= j < candidates@.len() && exported_candidate(candidates@[j], options.refs@.len() > 0)
                ==> candidate_loads(#[trigger] candidates@[j])) ==> exists|j1: int, j2: int|
            0 <= j1 < j2 < candidates@.len() && exported_candidate(
                candidates@[j1],
                options.refs@.len() > 0,
            ) && exported_candidate(candidates@[j2], options.refs@.len() > 0) && candidate_name(
                #[trigger] candidates@[j1],
            ) == candidate_name(#[trigger] candidates@[j2]) && r == Err::<Vec<RunxExportSkill>, _>(
                RunxExportLoadError::InvalidArgs(r->Err_0->InvalidArgs_0),
            ) && r->Err_0->InvalidArgs_0@ == duplicate_name_message(candidate_name(candidates@[j1])),
{
    let explicit = options.refs.len() > 0;
    let ghost cs = candidates@;
    let mut skills: Vec<RunxExportSkill> = Vec::new();
    let ghost mut idx: Seq<int> = Seq::empty();
    let mut i: usize = 0;
    assert(candidates@.subrange(0, 0).filter(|c: ExportCandidate| exported_candidate(c, explicit))
        =~= Seq::<ExportCandidate>::empty());
    while i < candidates.len()
        invariant
            i <= candidates@.len(),
            cs == candidates@,
            explicit == (options.refs@.len() > 0),
            skills@.len() == candidates@.subrange(0, i as int).filter(
                |c: ExportCandidate| exported_candidate(c, explicit),
            ).len(),
            idx.len() == skills@.len(),
            forall|k: int|
                0 <= k < idx.len() ==> 0 <= #[trigger] idx[k] < i && exported_candidate(cs[idx[k]], explicit)
                    && candidate_loads(cs[idx[k]]) && names_candidate(skills@[k], cs[idx[k]]),
            forall|k1: int, k2: int| 0 <= k1 < k2 < idx.len() ==> #[trigger] idx[k1] < #[trigger] idx[k2],
            forall|j: int|
                0 <= j < i && exported_candidate(cs[j], explicit) ==> candidate_loads(#[trigger] cs[j])
                    && exists|k: int| 0 <= k < idx.len() && idx[k] == j,
        decreases candidates.len() - i,
    {
        let candidate = &candidates[i];
        proof {
            let p = candidates@.subrange(0, i + 1);
            assert(p.drop_last() =~= candidates@.subrange(0, i as int));
            reveal(Seq::filter);
        }
        let internal = match &candidate.manifest {
            Some(m) => m.internal,
            None => false,
        };
        if explicit || !internal {
            assert(exported_candidate(cs[i as int], explicit));
            let manifest = candidate.manifest.as_ref();
            assert(manifest_model(manifest) == candidate.manifest);
            match load_export_skill(candidate.skill_dir.clone(), &candidate.skill, manifest) {
                Ok(skill) => {
                    assert(candidate_loads(cs[i as int]));
                    skills.push(skill);
                    proof {
                        let old_idx = idx;
                        idx = idx.push(i as int);
                        assert(names_candidate(skills@[skills@.len() - 1], cs[i as int]));
                        assert forall|j: int|
                            0 <= j < i + 1 && exported_candidate(cs[j], explicit) implies candidate_loads(
                                #[trigger] cs[j],
                            ) && exists|k: int| 0 <= k < idx.len() && idx[k] == j by {
                            if j == i {
                                assert(idx[idx.len() - 1] == j);
                            } else {
                                let k = choose|k: int| 0 <= k < old_idx.len() && old_idx[k] == j;
                                assert(idx[k] == j);
                            }
                        }
                    }
                },
                Err(e) => {
                    assert(!candidate_loads(cs[i as int]));
                    return Err(e);
                },
            }
        }
        i = i + 1;
    }
    assert(candidates@.subrange(0, candidates@.len() as int) =~= candidates@);
    let ghost before = skills@;
    assert(tracked_from(cs, explicit, idx, before));
    let checked = validate_unique_export_names(&mut skills);
    let ghost after = skills@;
    proof {
        lemma_export_names_cover(cs, explicit, idx, before, after);
    }
    match checked {
        Err(e) => {
            proof {
                lemma_export_duplicate_found(cs, explicit, idx, before, after, e);
            }
            return Err(e);
        },
        Ok(()) => {},
    }
    proof {
        lemma_export_names_distinct(cs, explicit, idx, before, after);
    }
    assert(skills@.len() == skills@.to_multiset().len());
    assert(before.len() == before.to_multiset().len());
    Ok(skills)
}

/// Exports the skills found under `root`, or the skills `refs` name.
pub fn load_export_skills(root: &str, refs: &Vec<String>, candidates: Vec<ExportCandidate>) -> (r:
    Result<Vec<RunxExportSkill>, RunxExportLoadError>)
    ensures
        r is Ok <==> candidates_export(candidates@, refs@.len() > 0),
        r matches Ok(v) ==> sorted_by_name(v@) && (forall|i: int|
            0 <= i < v@.len() - 1 ==> #[trigger] v@[i].name@ != v@[i + 1].name@),
        r matches Ok(v) ==> v@.len() == candidates@.filter(
            |c: ExportCandidate| exported_candidate(c, refs@.len() > 0),
        ).len(),
        r matches Ok(v) ==> exports_cover(candidates@, refs@.len() > 0, v@),
{
    let options = RunxExportLoadOptions { root, refs, official_roots: Vec::new() };
    assert(options.refs@ == refs@);
    load_export_skills_with_options(&options, candidates)
}

/// Names of directories a catalog walk never descends into.
pub fn is_ignored_directory(name: &str) -> (r: bool)
    ensures
        r == (name@ == ".git"@ || name@ == "node_modules"@ || name@ == "target"@),
{
    str_eq(name, ".git") || str_eq(name, "node_modules") || str_eq(name, "target")
}

} // verus!
