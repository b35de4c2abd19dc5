//! Command-line argument lookup: flag presence, positional arguments,
//! and options with values given as `--name value` or `--name=value`.

use crate::text::str_eq;
use vstd::prelude::*;
use vstd::string::StringExecFns;

verus! {

/// `arg` names the option itself: `-p` for `-p`.
pub open spec fn exact_opt(arg: Seq<char>, name: Seq<char>) -> bool {
    arg == name
}

/// `arg` carries the option and a value in one token: `-p=80` for `-p`.
pub open spec fn eq_opt(arg: Seq<char>, name: Seq<char>) -> bool {
    arg.len() > name.len() && arg.subrange(0, name.len() as int) == name && arg[name.len() as int]
        == '='
}

/// A positional argument: anything that does not begin with `-`.
pub open spec fn is_free_arg(a: Seq<char>) -> bool {
    a.len() == 0 || a[0] != '-'
}

/// Whether `arg` is `name` followed by `=` and anything.
fn is_eq_opt(arg: &str, name: &str) -> (r: bool)
    ensures
        r == eq_opt(arg@, name@),
{
    let na = arg.unicode_len();
    let nn = name.unicode_len();
    if na <= nn {
        return false;
    }
    let mut i: usize = 0;
    while i < nn
        invariant
            0 <= i <= nn,
            nn < na == arg@.len(),
            nn == name@.len(),
            forall|j: int| 0 <= j < i ==> arg@[j] == name@[j],
        decreases nn - i,
    {
        if arg.get_char(i) != name.get_char(i) {
            proof {
                assert(arg@.subrange(0, nn as int)[i as int] != name@[i as int]);
            }
            return false;
        }
        i = i + 1;
    }
    let at_sep = arg.get_char(nn);
    proof {
        if at_sep == '=' {
            assert(arg@.subrange(0, nn as int) =~= name@);
        }
    }
    at_sep == '='
}

/// The arguments a run was started with, consumed option by option.
pub struct Arguments {
    pub args: Vec<String>,
}

impl Arguments {
    /// Wrap an argument list (everything after the program name).
    pub fn new(args: Vec<String>) -> (r: Arguments)
        ensures
            r.args@ == args@,
    {
        Arguments { args }
    }

    /// Whether any argument names one of `names`, alone or with an
    /// `=value` attached.
    pub fn contains(&self, names: &[&str]) -> (r: bool)
        ensures
            r == exists|i: int, j: int|
                0 <= i < self.args@.len() && 0 <= j < names@.len() && (exact_opt(
                    #[trigger] self.args@[i]@,
                    #[trigger] names@[j]@,
                ) || eq_opt(self.args@[i]@, names@[j]@)),
    {
        let mut i: usize = 0;
        while i < self.args.len()
            invariant
                0 <= i <= self.args@.len(),
                forall|x: int, j: int|
                    0 <= x < i && 0 <= j < names@.len() ==> !exact_opt(
                        #[trigger] self.args@[x]@,
                        #[trigger] names@[j]@,
                    ) && !eq_opt(self.args@[x]@, names@[j]@),
            decreases self.args@.len() - i,
        {
            let mut j: usize = 0;
            while j < names.len()
                invariant
                    0 <= i < self.args@.len(),
                    0 <= j <= names@.len(),
                    forall|x: int, y: int|
                        0 <= x < i && 0 <= y < names@.len() ==> !exact_opt(
                            #[trigger] self.args@[x]@,
                            #[trigger] names@[y]@,
                        ) && !eq_opt(self.args@[x]@, names@[y]@),
                    forall|y: int|
                        0 <= y < j ==> !exact_opt(self.args@[i as int]@, #[trigger] names@[y]@)
                            && !eq_opt(self.args@[i as int]@, names@[y]@),
                decreases names@.len() - j,
            {
                let arg = &self.args[i];
                let name = names[j];
                if str_eq(arg.as_str(), name) || is_eq_opt(arg.as_str(), name) {
                    return true;
                }
                j = j + 1;
            }
            i = i + 1;
        }
        false
    }

    /// Take the first positional argument out of the list.
    pub fn free_from_str(&mut self) -> (r: Result<String, String>)
        ensures
            match r {
                Ok(v) => exists|i: int|
                    0 <= i < old(self).args@.len() && is_free_arg(#[trigger] old(self).args@[i]@)
                        && (forall|j: int| 0 <= j < i ==> !is_free_arg(#[trigger] old(self).args@[j]@))
                        && v@ == old(self).args@[i]@ && final(self).args@ == old(self).args@.remove(
                        i,
                    ),
                Err(e) => (forall|i: int|
                    0 <= i < old(self).args@.len() ==> !is_free_arg(#[trigger] old(self).args@[i]@))
                    && e@ == "Missing positional argument"@ && final(self).args@ == old(self).args@,
            },
    {
        let mut i: usize = 0;
        while i < self.args.len()
            invariant
                0 <= i <= self.args@.len(),
                self.args@ == old(self).args@,
                forall|j: int| 0 <= j < i ==> !is_free_arg(#[trigger] self.args@[j]@),
            decreases self.args@.len() - i,
        {
            let arg = &self.args[i];
            let is_dash = if arg.as_str().unicode_len() == 0 {
                false
            } else {
                arg.as_str().get_char(0) == '-'
            };
            if !is_dash {
                let val = self.args.remove(i);
                return Ok(val);
            }
            i = i + 1;
        }
        Err("Missing positional argument".to_owned())
    }

    /// Take the value of the first of `names` present, given either as
    /// `name=value` in one token or as `name value` in two; an exact
    /// name at the very end has no value to take.
    pub fn opt_value_from_str(&mut self, names: &[&str]) -> (r: Result<Option<String>, String>)
        ensures
            match r {
                Ok(Some(v)) => exists|i: int, j: int|
                    0 <= i < old(self).args@.len() && 0 <= j < names@.len() && ((eq_opt(
                        #[trigger] old(self).args@[i]@,
                        #[trigger] names@[j]@,
                    ) && v@ == old(self).args@[i]@.subrange(
                        names@[j]@.len() as int + 1,
                        old(self).args@[i]@.len() as int,
                    ) && final(self).args@ == old(self).args@.remove(i)) || (exact_opt(
                        old(self).args@[i]@,
                        names@[j]@,
                    ) && i + 1 < old(self).args@.len() && v@ == old(self).args@[i + 1]@ && final(self).args@ == old(self).args@.remove(i + 1).remove(i))),
                Ok(None) => final(self).args@ == old(self).args@ && (forall|i: int, j: int|
                    0 <= i < old(self).args@.len() && 0 <= j < names@.len() ==> !exact_opt(
                        #[trigger] old(self).args@[i]@,
                        #[trigger] names@[j]@,
                    ) && !eq_opt(old(self).args@[i]@, names@[j]@)),
                Err(e) => final(self).args@ == old(self).args@ && exists|j: int|
                    0 <= j < names@.len() && exact_opt(
                        old(self).args@[old(self).args@.len() - 1]@,
                        #[trigger] names@[j]@,
                    ) && e@ == "Missing value for option "@ + names@[j]@,
            },
    {
        let mut i: usize = 0;
        while i < self.args.len()
            invariant
                0 <= i <= self.args@.len(),
                self.args@ == old(self).args@,
                forall|x: int, y: int|
                    0 <= x < i && 0 <= y < names@.len() ==> !eq_opt(
                        #[trigger] self.args@[x]@,
                        #[trigger] names@[y]@,
                    ),
            decreases self.args@.len() - i,
        {
            let mut j: usize = 0;
            while j < names.len()
                invariant
                    0 <= i < self.args@.len(),
                    0 <= j <= names@.len(),
                    self.args@ == old(self).args@,
                    forall|y: int|
                        0 <= y < j ==> !eq_opt(self.args@[i as int]@, #[trigger] names@[y]@),
                decreases names@.len() - j,
            {
                let name = names[j];
                if is_eq_opt(self.args[i].as_str(), name) {
                    let arg_len = self.args[i].as_str().unicode_len();
                    let name_len = name.unicode_len();
                    let value = self.args[i].as_str().substring_char(name_len + 1, arg_len)
                        .to_owned();
                    let _ = self.args.remove(i);
                    return Ok(Some(value));
                }
                j = j + 1;
            }
            i = i + 1;
        }
        let mut i: usize = 0;
        while i < self.args.len()
            invariant
                0 <= i <= self.args@.len(),
                self.args@ == old(self).args@,
                forall|x: int, y: int|
                    0 <= x < self.args@.len() && 0 <= y < names@.len() ==> !eq_opt(
                        #[trigger] self.args@[x]@,
                        #[trigger] names@[y]@,
                    ),
                forall|x: int, y: int|
                    0 <= x < i && 0 <= y < names@.len() ==> !exact_opt(
                        #[trigger] self.args@[x]@,
                        #[trigger] names@[y]@,
                    ),
            decreases self.args@.len() - i,
        {
            let mut j: usize = 0;
            while j < names.len()
                invariant
                    0 <= i < self.args@.len(),
                    0 <= j <= names@.len(),
                    self.args@ == old(self).args@,
                    forall|y: int|
                        0 <= y < j ==> !exact_opt(self.args@[i as int]@, #[trigger] names@[y]@),
                decreases names@.len() - j,
            {
                let name = names[j];
                if str_eq(self.args[i].as_str(), name) {
                    if i >= self.args.len() - 1 {
                        proof {
                            assert(i == self.args@.len() - 1);
                        }
                        let mut msg = "Missing value for option ".to_owned();
                        msg.append(name);
                        return Err(msg);
                    }
                    let value = self.args.remove(i + 1);
                    let _ = self.args.remove(i);
                    return Ok(Some(value));
                }
                j = j + 1;
            }
            i = i + 1;
        }
        Ok(None)
    }
}

} // verus!
