//! The command-line front end's decisions: dispatch on the first argument,
//! classification of one line of interactive input, and the fixed texts the
//! launcher prints.

use vstd::prelude::*;
use crate::text::str_eq;

verus! {

/// What the launcher does, selected by the first command-line argument or
/// by the absence of arguments.
#[derive(Debug)]
pub enum Command {
    /// Print the usage banner and the catalog; exit 0.
    Help,
    /// Print the identification line; exit 0.
    About,
    /// Treat the argument as a script name and run it.
    RunByName(String),
    /// No arguments: enter the interactive menu loop.
    Interactive,
}

/// Dispatches on the argument vector.  Any first argument other than the
/// help and about flags is treated as a script name to run, even one that
/// merely resembles a flag; interactive mode is entered only when no
/// argument is present.
pub fn parse_command(args: &Vec<String>) -> (c: Command)
    ensures
        args@.len() < 2 ==> c == Command::Interactive,
        args@.len() >= 2 ==> {
            let a = args@[1]@;
            if a == "-h"@ || a == "--help"@ {
                c == Command::Help
            } else if a == "-a"@ || a == "--about"@ {
                c == Command::About
            } else {
                c matches Command::RunByName(n) && n@ == a
            }
        },
{
    if args.len() < 2 {
        return Command::Interactive;
    }
    let a = &args[1];
    if str_eq(a.as_str(), "-h") || str_eq(a.as_str(), "--help") {
        Command::Help
    } else if str_eq(a.as_str(), "-a") || str_eq(a.as_str(), "--about") {
        Command::About
    } else {
        Command::RunByName(a.clone())
    }
}

/// Whitespace trimmed from both ends of interactive input.
pub open spec fn is_space(c: char) -> bool {
    c == ' ' || c == '\t' || c == '\r' || c == '\n'
}

/// The input with leading whitespace dropped.
pub open spec fn trim_front(s: Seq<char>) -> Seq<char>
    decreases s.len(),
{
    if s.len() > 0 && is_space(s[0]) {
        trim_front(s.drop_first())
    } else {
        s
    }
}

/// The input with trailing whitespace dropped.
pub open spec fn trim_back(s: Seq<char>) -> Seq<char>
    decreases s.len(),
{
    if s.len() > 0 && is_space(s.last()) {
        trim_back(s.drop_last())
    } else {
        s
    }
}

/// The input with whitespace dropped from both ends.
pub open spec fn trimmed(s: Seq<char>) -> Seq<char> {
    trim_back(trim_front(s))
}

/// An upper-case ASCII letter lowered; any other character unchanged.
pub open spec fn lower_char(c: char) -> char {
    if 'A' <= c && c <= 'Z' {
        (((c as u8) + 32) as u8) as char
    } else {
        c
    }
}

/// The input lowered character by character (ASCII letters only).
pub open spec fn lowered(s: Seq<char>) -> Seq<char> {
    s.map_values(|c: char| lower_char(c))
}

/// The quit requests: `q`, `quit` or `exit`, in any casing.
pub open spec fn is_quit_word(s: Seq<char>) -> bool {
    ||| lowered(s) == seq!['q']
    ||| lowered(s) == seq!['q', 'u', 'i', 't']
    ||| lowered(s) == seq!['e', 'x', 'i', 't']
}

/// Whether the character selects a menu entry: an ASCII letter in either
/// case.
pub open spec fn is_menu_letter(c: char) -> bool {
    'a' <= lower_char(c) && lower_char(c) <= 'z'
}

/// The catalog index a menu letter stands for: `a` is 0, `b` is 1, ...
pub open spec fn letter_index(c: char) -> int
    recommends
        is_menu_letter(c),
{
    lower_char(c) as int - 97
}

/// What one line of interactive input asks for.
#[derive(PartialEq, Eq, Structural, Debug, Clone, Copy)]
pub enum MenuAction {
    /// Leave the loop with exit code 0.
    Quit,
    /// Run the catalog entry at this index, then show the menu again.
    Run(usize),
    /// Print the invalid-option notice and show the menu again.
    Invalid,
}

/// The classification of one line of interactive input against a catalog of
/// the given length: quit words first, then a single letter inside the
/// catalog range, and everything else invalid.
pub open spec fn selection_of(input: Seq<char>, catalog_len: nat) -> MenuAction {
    let t = trimmed(input);
    if is_quit_word(t) {
        MenuAction::Quit
    } else if t.len() == 1 && is_menu_letter(t[0]) && letter_index(t[0]) < catalog_len {
        MenuAction::Run(letter_index(t[0]) as usize)
    } else {
        MenuAction::Invalid
    }
}

/// Lowers one character as the interactive loop does.
fn lower_char_exec(c: char) -> (r: char)
    ensures
        r == lower_char(c),
{
    if 'A' <= c && c <= 'Z' {
        ((c as u8) + 32) as char
    } else {
        c
    }
}

/// Classifies one line of interactive input: trims it, lowers it, and maps
/// it to quit, to a catalog entry, or to the invalid-option notice.  An
/// out-of-range letter and any input that is not a single letter or a quit
/// word are rejected as invalid, never an error.
pub fn interpret_selection(input: &str, catalog_len: usize) -> (a: MenuAction)
    ensures
        a == selection_of(input@, catalog_len as nat),
{
    let n: usize = input.unicode_len();
    let ghost s = input@;
    let mut lo: usize = 0;
    proof {
        assert(s.skip(0) =~= s);
    }
    loop
        invariant
            lo <= n,
            n == s.len(),
            s == input@,
            trim_front(s) == trim_front(s.skip(lo as int)),
        ensures
            lo <= n,
            trim_front(s) == s.skip(lo as int),
        decreases n - lo,
    {
        if lo == n {
            proof {
                assert(s.skip(lo as int).len() == 0);
            }
            break;
        }
        let c = input.get_char(lo);
        if c == ' ' || c == '\t' || c == '\r' || c == '\n' {
            proof {
                assert(s.skip(lo as int)[0] == s[lo as int]);
                assert(s.skip(lo as int).drop_first() =~= s.skip(lo as int + 1));
            }
            lo = lo + 1;
        } else {
            proof {
                assert(s.skip(lo as int)[0] == s[lo as int]);
                assert(!is_space(s.skip(lo as int)[0]));
            }
            break;
        }
    }
    let mut hi: usize = n;
    proof {
        assert(s.skip(lo as int) =~= s.subrange(lo as int, hi as int));
    }
    loop
        invariant
            lo <= hi <= n,
            n == s.len(),
            s == input@,
            trim_back(s.skip(lo as int)) == trim_back(s.subrange(lo as int, hi as int)),
        ensures
            lo <= hi <= n,
            trim_back(s.skip(lo as int)) == s.subrange(lo as int, hi as int),
        decreases hi,
    {
        if hi == lo {
            proof {
                assert(s.subrange(lo as int, hi as int).len() == 0);
            }
            break;
        }
        let c = input.get_char(hi - 1);
        if c == ' ' || c == '\t' || c == '\r' || c == '\n' {
            proof {
                let t = s.subrange(lo as int, hi as int);
                assert(t.last() == s[hi as int - 1]);
                assert(t.drop_last() =~= s.subrange(lo as int, hi as int - 1));
            }
            hi = hi - 1;
        } else {
            proof {
                let t = s.subrange(lo as int, hi as int);
                assert(t.last() == s[hi as int - 1]);
                assert(!is_space(t.last()));
            }
            break;
        }
    }
    let ghost t = trimmed(s);
    proof {
        assert(t == s.subrange(lo as int, hi as int));
        assert(t.len() == hi - lo);
    }
    let m: usize = hi - lo;
    if m == 1 {
        let c = input.get_char(lo);
        proof {
            assert(t[0] == s[lo as int]);
        }
        let lc = lower_char_exec(c);
        if lc == 'q' {
            proof {
                assert(lowered(t) =~= seq!['q']);
            }
            return MenuAction::Quit;
        }
        proof {
            assert(lowered(t).len() == 1);
            assert(lowered(t)[0] == lower_char(t[0]));
            assert(!is_quit_word(t));
        }
        if 'a' <= lc && lc <= 'z' {
            let idx: usize = ((lc as u8) - 97u8) as usize;
            proof {
                assert(is_menu_letter(t[0]));
                assert(idx == letter_index(t[0]));
            }
            if idx < catalog_len {
                return MenuAction::Run(idx);
            }
            return MenuAction::Invalid;
        }
        proof {
            assert(!is_menu_letter(t[0]));
        }
        return MenuAction::Invalid;
    }
    if m == 4 {
        let l0 = lower_char_exec(input.get_char(lo));
        let l1 = lower_char_exec(input.get_char(lo + 1));
        let l2 = lower_char_exec(input.get_char(lo + 2));
        let l3 = lower_char_exec(input.get_char(lo + 3));
        proof {
            assert(t[0] == s[lo as int]);
            assert(t[1] == s[lo as int + 1]);
            assert(t[2] == s[lo as int + 2]);
            assert(t[3] == s[lo as int + 3]);
            assert(lowered(t).len() == 4);
            assert(lowered(t)[0] == lower_char(t[0]));
            assert(lowered(t)[1] == lower_char(t[1]));
            assert(lowered(t)[2] == lower_char(t[2]));
            assert(lowered(t)[3] == lower_char(t[3]));
        }
        if (l0 == 'q' && l1 == 'u' && l2 == 'i' && l3 == 't') || (l0 == 'e' && l1 == 'x' && l2
            == 'i' && l3 == 't') {
            proof {
                if l0 == 'q' {
                    assert(lowered(t) =~= seq!['q', 'u', 'i', 't']);
                } else {
                    assert(lowered(t) =~= seq!['e', 'x', 'i', 't']);
                }
            }
            return MenuAction::Quit;
        }
        proof {
            assert(!is_quit_word(t));
        }
        return MenuAction::Invalid;
    }
    proof {
        assert(lowered(t).len() == t.len());
        assert(!is_quit_word(t));
    }
    MenuAction::Invalid
}

/// Law: the letter the menu shows beside a catalog entry selects exactly
/// that entry.  The one exception is the letter `q` (the entry at index
/// 16), which the loop reads as a quit request before trying letters; it is
/// left out here.
pub proof fn lemma_menu_letter_selects_entry(idx: int, catalog_len: nat)
    requires
        0 <= idx < catalog_len,
        idx < 26,
        idx != 16,
    ensures
        selection_of(seq![crate::catalog::letter_of(idx)], catalog_len) == MenuAction::Run(
            idx as usize,
        ),
{
    let c = crate::catalog::letter_of(idx);
    assert(c as int == 97 + idx);
    assert(!is_space(c));
    let t = trimmed(seq![c]);
    assert(t == seq![c]);
    assert(lowered(t) =~= seq![c]);
    assert(lowered(t) != seq!['q']) by {
        if lowered(t) == seq!['q'] {
            assert(lowered(t)[0] == 'q');
        }
    }
    assert(!is_quit_word(t));
    assert(is_menu_letter(c));
    assert(letter_index(c) == idx);
}

/// The interactive mode's gate: with an empty catalog it exits immediately
/// with code 1 instead of entering the loop.
pub fn interactive_startup(catalog_len: usize) -> (r: Option<i32>)
    ensures
        catalog_len == 0 ==> r == Option::Some(1i32),
        catalog_len != 0 ==> r == Option::<i32>::None,
{
    if catalog_len == 0 {
        Option::Some(1)
    } else {
        Option::None
    }
}

/// The static identification line printed for the about flag.
pub fn about_line() -> (r: String)
    ensures
        r@ == "modrunner - A simple script runner for shell scripts"@,
{
    "modrunner - A simple script runner for shell scripts".to_owned()
}

/// The usage banner's first line.
pub fn usage_line(program: &str) -> (r: String)
    ensures
        r@ == "Usage: "@ + program@ + " <script_name>"@,
{
    let mut r = "Usage: ".to_owned();
    r.append(program);
    r.append(" <script_name>");
    r
}

/// The diagnostic for a script name that is not present in the module
/// directory.
pub fn not_found_message(script_name: &str, module_dir: &str) -> (r: String)
    ensures
        r@ == "Script '"@ + script_name@ + "' not found in "@ + module_dir@,
{
    let mut r = "Script '".to_owned();
    r.append(script_name);
    r.append("' not found in ");
    r.append(module_dir);
    r
}

/// The diagnostic for an empty module catalog.
pub fn no_modules_message(module_dir: &str) -> (r: String)
    ensures
        r@ == "No modules found in "@ + module_dir@,
{
    let mut r = "No modules found in ".to_owned();
    r.append(module_dir);
    r
}

} // verus!
