use crate::text::{chars_of, str_eq, string_of};
use vstd::prelude::*;

verus! {

/// The extension of the files that hold modules.
pub open spec fn module_extension() -> Seq<char> {
    "xiss"@
}

/// Returns true if the extension of a path is that of a module.
pub fn has_module_extension(extension: Option<&str>) -> (b: bool)
    ensures
        b == (extension matches Some(ext) && ext@ == module_extension()),
{
    if let Some(ext) = extension {
        if str_eq(ext, "xiss") {
            return true;
        }
    }
    false
}

/// The place of the first `.` in `s` at or after `i`, or the length of `s`
/// where there is none.
pub open spec fn first_dot(s: Seq<char>, i: int) -> int
    decreases s.len() - i,
{
    if i < 0 || i >= s.len() {
        s.len() as int
    } else if s[i] == '.' {
        i
    } else {
        first_dot(s, i + 1)
    }
}

/// The name of the module that lies at a path: the path, which is taken
/// relative to the directory of the modules, up to its first `.`.
pub open spec fn module_id_of(relative_path: Seq<char>) -> Seq<char> {
    relative_path.take(first_dot(relative_path, 0))
}

/// A name that was cut at the first `.` holds none.
pub proof fn lemma_module_id_has_no_dot(relative_path: Seq<char>)
    ensures
        forall|k: int| 0 <= k < module_id_of(relative_path).len() ==> module_id_of(relative_path)[k] != '.',
{
    lemma_first_dot(relative_path, 0);
}

proof fn lemma_first_dot(s: Seq<char>, i: int)
    requires
        0 <= i <= s.len(),
    ensures
        i <= first_dot(s, i) <= s.len(),
        forall|k: int| i <= k < first_dot(s, i) ==> s[k] != '.',
        first_dot(s, i) < s.len() ==> s[first_dot(s, i)] == '.',
    decreases s.len() - i,
{
    if i < s.len() && s[i] != '.' {
        lemma_first_dot(s, i + 1);
    }
}

/// Extracts module id from a path that is relative to the directory of the
/// modules.
pub fn path_to_module_id(relative_path: &str) -> (module_id: String)
    ensures
        module_id@ == module_id_of(relative_path@),
{
    let chars = chars_of(relative_path);
    let mut i: usize = 0;
    while i < chars.len() && chars[i] != '.'
        invariant
            i <= chars.len(),
            chars@ == relative_path@,
            first_dot(chars@, 0) == first_dot(chars@, i as int),
        decreases chars.len() - i,
    {
        i += 1;
    }
    proof {
        assert(chars@.take(i as int) =~= chars@.subrange(0, i as int));
    }
    string_of(&chars, 0, i)
}

/// The later of two times.
pub open spec fn later(a: u128, b: u128) -> u128 {
    if b > a {
        b
    } else {
        a
    }
}

/// Returns max modified time of the three files of a module, each given as
/// it was last written; `None` where one of them is not known.
pub fn max_modified_time_3(css: Option<u128>, js: Option<u128>, ts: Option<u128>) -> (t: Option<u128>)
    ensures
        t == (if css is Some && js is Some && ts is Some {
            Some(later(later(css->0, js->0), ts->0))
        } else {
            None
        }),
{
    let mut t = match css {
        Some(t) => t,
        None => {
            return None;
        },
    };
    let t2 = match js {
        Some(t) => t,
        None => {
            return None;
        },
    };
    if t2 > t {
        t = t2;
    }
    let t3 = match ts {
        Some(t) => t,
        None => {
            return None;
        },
    };
    if t3 > t {
        t = t3;
    }
    Some(t)
}

/// Checks if module should be recompiled: it should, unless it was written
/// no later than the latest of its three output files.
pub fn should_compile(module: Option<u128>, css: Option<u128>, js: Option<u128>, ts: Option<u128>) -> (b:
    bool)
    ensures
        b == !(module is Some && css is Some && js is Some && ts is Some && module->0 <= later(
            later(css->0, js->0),
            ts->0,
        )),
{
    if let Some(output_time) = max_modified_time_3(css, js, ts) {
        if let Some(input_time) = module {
            if input_time <= output_time {
                return false;
            }
        }
    }
    true
}

/// Checks if output file should be updated: it should, unless it holds the
/// content already.
pub fn should_update(current: Option<&str>, content: &str) -> (b: bool)
    ensures
        b == !(current matches Some(s) && s@ == content@),
{
    if let Some(s) = current {
        !str_eq(s, content)
    } else {
        true
    }
}

} // verus!
