//! The git pre-commit hook.

use vstd::prelude::*;

use crate::text;

verus! {

/// What to do with the pre-commit hook of a repository.
#[derive(Debug, PartialEq, Eq)]
pub enum HookPlan {
    /// It runs the check already.
    AlreadyInstalled,
    /// Another hook is there: replace its text by this one, which runs both.
    Append(String),
    /// There is none: write this one.
    Create(String),
}

/// The hook that runs the check and blocks the commit if it fails.
pub open spec fn hook_script() -> Seq<char> {
    "#!/bin/sh\n# "@ + "silicon"@ + ": RP2040 register-correctness pre-commit check\n"@
        + "# Generated by 'silicon install-hook'. Remove this file to disable.\n"@
        + "if ! silicon check 2>/dev/null; then\n"@ + "    silicon check\n"@ + "    echo ''\n"@
        + "    echo 'silicon: pre-commit check failed — fix register violations before committing'\n"@
        + "    exit 1\n"@ + "fi\n"@
}

/// Whether a hook runs the check already, which it is taken to do if it names the tool.
pub open spec fn runs_check(hook: Seq<char>) -> bool {
    text::find(hook, "silicon"@) is Some
}

/// The text of a hook that does what `existing` does and runs the check.
pub open spec fn appended_hook(existing: Seq<char>) -> Seq<char> {
    text::trim_end(existing) + "\n"@ + hook_script()
}

fn script_text() -> (r: String)
    ensures
        r@ == hook_script(),
{
    "#!/bin/sh\n# ".to_owned().concat("silicon").concat(": RP2040 register-correctness pre-commit check\n").concat(
        "# Generated by 'silicon install-hook'. Remove this file to disable.\n",
    ).concat("if ! silicon check 2>/dev/null; then\n").concat("    silicon check\n").concat("    echo ''\n").concat(
        "    echo 'silicon: pre-commit check failed — fix register violations before committing'\n",
    ).concat("    exit 1\n").concat("fi\n")
}

/// What to do, given the hook that is there, if there is one. An existing hook is kept.
pub fn plan_hook(existing: Option<&str>) -> (r: HookPlan)
    ensures
        match existing {
            None => r matches HookPlan::Create(s) && s@ == hook_script(),
            Some(hook) => if runs_check(hook@) {
                r is AlreadyInstalled
            } else {
                r matches HookPlan::Append(s) && s@ == appended_hook(hook@)
            },
        },
{
    match existing {
        None => HookPlan::Create(script_text()),
        Some(hook) => {
            if text::find_text(hook, "silicon").is_some() {
                HookPlan::AlreadyInstalled
            } else {
                HookPlan::Append(text::trim_end_text(hook).concat("\n").concat(script_text().as_str()))
            }
        },
    }
}

/// What is said once the plan is carried out.
pub fn hook_message(plan: &HookPlan, path: &str) -> (r: String)
    ensures
        r@ == (match *plan {
            HookPlan::AlreadyInstalled => "silicon: pre-commit hook already installed at "@,
            HookPlan::Append(_) => "silicon: appended silicon check to existing hook at "@,
            HookPlan::Create(_) => "silicon: installed pre-commit hook at "@,
        }) + path@,
{
    let head = match plan {
        HookPlan::AlreadyInstalled => "silicon: pre-commit hook already installed at ",
        HookPlan::Append(_) => "silicon: appended silicon check to existing hook at ",
        HookPlan::Create(_) => "silicon: installed pre-commit hook at ",
    };
    head.to_owned().concat(path)
}

/// What is said of a directory without hooks.
pub fn not_a_repository(repo: &str) -> (r: String)
    ensures
        r@ == repo@ + " is not a git repository (no .git/hooks directory)"@,
{
    repo.to_owned().concat(" is not a git repository (no .git/hooks directory)")
}

// ── What holds of every installation ─────────────────────────────────────────

/// The hook runs the check once it is installed, so installing it again changes nothing.
pub proof fn installing_is_idempotent(existing: Seq<char>)
    ensures
        runs_check(hook_script()),
        runs_check(appended_hook(existing)),
{
    let after = ": RP2040 register-correctness pre-commit check\n"@
        + "# Generated by 'silicon install-hook'. Remove this file to disable.\n"@
        + "if ! silicon check 2>/dev/null; then\n"@ + "    silicon check\n"@ + "    echo ''\n"@
        + "    echo 'silicon: pre-commit check failed — fix register violations before committing'\n"@
        + "    exit 1\n"@ + "fi\n"@;
    assert(hook_script() =~= "#!/bin/sh\n# "@ + "silicon"@ + after);
    text::lemma_find_present("#!/bin/sh\n# "@, "silicon"@, after);
    let before = text::trim_end(existing) + "\n"@ + "#!/bin/sh\n# "@;
    assert(appended_hook(existing) =~= before + "silicon"@ + after);
    text::lemma_find_present(before, "silicon"@, after);
}

/// Appending keeps what the hook did before.
pub proof fn appending_keeps_the_hook(existing: Seq<char>)
    ensures
        text::trim_end(existing).is_prefix_of(appended_hook(existing)),
{
    let head = text::trim_end(existing);
    assert(appended_hook(existing).subrange(0, head.len() as int) =~= head);
}

} // verus!
