//! What a git hook installation needs from the library: names, the script
//! text, and reading a `gitdir:` pointer file.

use vstd::prelude::*;

use crate::chars::{
    chars_to_string, copy_range, spec_trim, str_to_chars, seq_eq, trim,
};

verus! {

/// The hooks the library can write a script for.
#[derive(Debug, Clone, Copy)]
pub enum HookKind {
    CommitMsg,
}

/// The file name of the hook.
pub fn hook_filename(kind: HookKind) -> (r: &'static str)
    ensures
        r@ == "commit-msg"@,
{
    match kind {
        HookKind::CommitMsg => "commit-msg",
    }
}

/// The label the hook is reported under.
pub fn hook_label(kind: HookKind) -> (r: &'static str)
    ensures
        r@ == "commit-msg"@,
{
    match kind {
        HookKind::CommitMsg => "commit-msg",
    }
}

/// The shell script the hook file holds.
pub fn hook_script(kind: HookKind, write: bool) -> (r: String)
    ensures
        write ==> r@ == "#!/bin/sh\nexec gitfluff lint --from-file \"$1\" --write\n"@,
        !write ==> r@ == "#!/bin/sh\nexec gitfluff lint --from-file \"$1\"\n"@,
{
    match kind {
        HookKind::CommitMsg => {
            if write {
                "#!/bin/sh\nexec gitfluff lint --from-file \"$1\" --write\n".to_owned()
            } else {
                "#!/bin/sh\nexec gitfluff lint --from-file \"$1\"\n".to_owned()
            }
        },
    }
}

/// The path a `.git` pointer file names after `gitdir:`, trimmed, if the
/// file has that shape.
pub open spec fn spec_gitdir_pointer(content: Seq<char>) -> Option<Seq<char>> {
    let t = spec_trim(content);
    if t.len() >= 7 && t.take(7) == "gitdir:"@ {
        Some(spec_trim(t.skip(7)))
    } else {
        None
    }
}

pub fn parse_gitdir_pointer(content: &str) -> (r: Option<String>)
    ensures
        r is Some <==> spec_gitdir_pointer(content@) is Some,
        r matches Some(p) ==> spec_gitdir_pointer(content@) == Some(p@),
{
    let v = str_to_chars(content);
    let t = trim(&v);
    if t.len() < 7 {
        return None;
    }
    let prefix = copy_range(&t, 0, 7);
    let marker = str_to_chars("gitdir:");
    proof {
        assert(prefix@ =~= t@.take(7));
    }
    if !seq_eq(&prefix, &marker) {
        return None;
    }
    let rest = copy_range(&t, 7, t.len());
    proof {
        assert(rest@ =~= t@.skip(7));
    }
    let out = trim(&rest);
    Some(chars_to_string(&out))
}

} // verus!
