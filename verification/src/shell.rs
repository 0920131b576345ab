//! Decisions around launching an interactive shell inside the workspace:
//! which program runs, with which arguments, and the environment values
//! derived from the session nesting level and the prompt.
//!
//! Spawning the process, reading real environment variables and waiting
//! for the exit status are the surrounding binary's work.

use vstd::prelude::*;
use vstd::string::*;

use crate::util::dec_digits;
use crate::util::dec_string;

verus! {

/// How a shell session was requested.
pub struct ShellOptions {
    pub shell: Option<String>,
    pub no_prompt: bool,
    pub noninteractive: bool,
    pub command: Vec<String>,
}

/// The words joined by single spaces.
pub open spec fn joined_with_spaces(items: Seq<Seq<char>>) -> Seq<char>
    decreases items.len(),
{
    if items.len() == 0 {
        Seq::<char>::empty()
    } else if items.len() == 1 {
        items[0]
    } else {
        joined_with_spaces(items.drop_last()) + " "@ + items.last()
    }
}

/// Joins command words with single spaces, as handed to the shell's
/// command switch.
pub fn join_with_spaces(items: &Vec<String>) -> (r: String)
    ensures
        r@ == joined_with_spaces(items@.map_values(|s: String| s@)),
{
    let ghost iv = items@.map_values(|s: String| s@);
    let n = items.len();
    let mut r = String::new();
    if n == 0 {
        proof {
            assert(joined_with_spaces(iv) =~= Seq::<char>::empty());
        }
        return r;
    }
    r.append(items[0].as_str());
    let mut i: usize = 1;
    proof {
        assert(iv.take(1).len() == 1);
        assert(iv.take(1)[0] == iv[0]);
        assert(r@ == joined_with_spaces(iv.take(1)));
    }
    while i < n
        invariant
            1 <= i <= n,
            n == items@.len(),
            iv == items@.map_values(|s: String| s@),
            r@ == joined_with_spaces(iv.take(i as int)),
        decreases n - i,
    {
        r.append(" ");
        r.append(items[i].as_str());
        proof {
            assert(iv.take(i + 1).drop_last() =~= iv.take(i as int));
            assert(iv.take(i + 1).last() == iv[i as int]);
            assert(iv.take(i + 1).len() == i + 1 >= 2);
        }
        i += 1;
    }
    proof {
        assert(iv.take(n as int) =~= iv);
    }
    r
}

/// How the interactive shell is launched: the program and its arguments.
pub struct ShellInvocation {
    pub program: String,
    pub args: Vec<String>,
}

/// Chooses the shell program and arguments: the explicitly requested
/// shell, else the login shell from the environment, else `/bin/bash`; an
/// interactive session without a command runs `-i`, a one-shot command
/// runs `-lc` with the words joined by spaces.
pub fn shell_invocation(opts: &ShellOptions, env_shell: Option<&str>) -> (r: ShellInvocation)
    ensures
        (match opts.shell {
            Some(s) => r.program@ == s@,
            None => (match env_shell {
                Some(e) => r.program@ == e@,
                None => r.program@ == "/bin/bash"@,
            }),
        }),
        opts.command@.len() == 0 ==> (r.args@.len() == 1 && r.args@[0]@ == "-i"@),
        opts.command@.len() > 0 ==> (r.args@.len() == 2 && r.args@[0]@ == "-lc"@ && r.args@[1]@
            == joined_with_spaces(opts.command@.map_values(|s: String| s@))),
{
    let program: String = match &opts.shell {
        Some(s) => s.clone(),
        None => match env_shell {
            Some(e) => e.to_owned(),
            None => String::from_str("/bin/bash"),
        },
    };
    let mut args: Vec<String> = Vec::new();
    if opts.command.len() == 0 {
        args.push(String::from_str("-i"));
    } else {
        args.push(String::from_str("-lc"));
        args.push(join_with_spaces(&opts.command));
    }
    ShellInvocation { program, args }
}

/// A decimal digit's value, if the character is one.
pub open spec fn char_digit(c: char) -> Option<nat> {
    if 48 <= (c as u32) <= 57 {
        Some(((c as u32) - 48) as nat)
    } else {
        None
    }
}

/// The number a digit string denotes, most significant digit first.
pub open spec fn digits_value(s: Seq<char>) -> nat
    decreases s.len(),
{
    if s.len() == 0 {
        0
    } else {
        digits_value(s.drop_last()) * 10 + (match char_digit(s.last()) {
            Some(d) => d,
            None => 0,
        })
    }
}

/// The string is non-empty and wholly decimal digits.
pub open spec fn all_digits(s: Seq<char>) -> bool {
    s.len() > 0 && forall|i: int| 0 <= i < s.len() ==> char_digit(s[i]) is Some
}

/// Parses a decimal session-nesting level. `None` for anything that is
/// not a plain digit string whose value fits.
pub fn parse_level(s: &str) -> (r: Option<u32>)
    ensures
        r matches Some(v) ==> all_digits(s@) && v == digits_value(s@),
        r is None ==> (!all_digits(s@) || digits_value(s@) > u32::MAX),
{
    let n = s.unicode_len();
    if n == 0 {
        return None;
    }
    let mut acc: u32 = 0;
    let mut i: usize = 0;
    while i < n
        invariant
            i <= n,
            n == s@.len(),
            n > 0,
            forall|j: int| 0 <= j < i ==> char_digit(s@[j]) is Some,
            acc == digits_value(s@.take(i as int)),
        decreases n - i,
    {
        let c = s.get_char(i);
        let code = c as u32;
        if code < 48 || code > 57 {
            assert(char_digit(s@[i as int]) is None);
            return None;
        }
        let d = code - 48;
        if acc > (u32::MAX - d) / 10 {
            proof {
                assert(s@.take(i + 1).drop_last() =~= s@.take(i as int));
                assert(s@.take(i + 1).last() == s@[i as int]);
                assert(digits_value(s@.take(i + 1)) > u32::MAX);
                lemma_digits_value_prefix_le(s@, i + 1);
            }
            return None;
        }
        acc = acc * 10 + d;
        proof {
            assert(s@.take(i + 1).drop_last() =~= s@.take(i as int));
            assert(s@.take(i + 1).last() == s@[i as int]);
        }
        i += 1;
    }
    proof {
        assert(s@.take(n as int) =~= s@);
    }
    Some(acc)
}

/// A longer digit prefix never denotes a smaller number.
proof fn lemma_digits_value_prefix_le(s: Seq<char>, i: int)
    requires
        0 <= i <= s.len(),
    ensures
        digits_value(s.take(i)) <= digits_value(s),
    decreases s.len() - i,
{
    if i == s.len() {
        assert(s.take(i) =~= s);
    } else {
        assert(s.take(i + 1).drop_last() =~= s.take(i));
        lemma_digits_value_prefix_le(s, i + 1);
    }
}

/// The session-nesting level exported to the child shell: one more than
/// the inherited level, an unreadable or missing level counting as zero.
pub fn next_shell_level(inherited: Option<&str>) -> (r: String)
    ensures
        (match inherited {
            None => r@ == dec_digits(1),
            Some(s) => r@ == dec_digits(
                ((match parse_level_spec(s@) {
                    Some(v) => v
                    ,
                    None => 0,
                }) + 1) as nat,
            ),
        }),
{
    match inherited {
        None => {
            let r = dec_string(1);
            r
        },
        Some(s) => {
            let level: u64 = match parse_level(s) {
                Some(v) => v as u64,
                None => 0,
            };
            proof {
                match parse_level_spec(s@) {
                    Some(v) => {
                        assert(all_digits(s@) && digits_value(s@) <= u32::MAX);
                    },
                    None => {
                    },
                }
            }
            dec_string(level + 1)
        },
    }
}

/// What parsing the inherited level yields.
pub open spec fn parse_level_spec(s: Seq<char>) -> Option<nat> {
    if all_digits(s) && digits_value(s) <= u32::MAX {
        Some(digits_value(s))
    } else {
        None
    }
}

/// The interactive prompt exported to the child shell: the workspace
/// marker in front of the inherited prompt, or in front of a plain
/// user-and-dollar prompt when none is inherited.
pub fn prompt_value(inherited: Option<&str>) -> (r: String)
    ensures
        (match inherited {
            Some(p) => r@ == "(ramws) "@ + p@,
            None => r@ == "(ramws) \\u$ "@,
        }),
{
    match inherited {
        Some(p) => String::from_str("(ramws) ").concat(p),
        None => String::from_str("(ramws) \\u$ "),
    }
}

} // verus!
