//! The module catalog: filtering a directory listing down to script files and
//! sorting it so that menu letters are assigned deterministically.

use vstd::prelude::*;
use vstd::relations::sorted_by;
use vstd::seq_lib::lemma_sorted_unique;
use crate::text::{lex_leq, lex_leq_on, str_le, push_char, lemma_lex_leq_total_ordering};

verus! {

/// The character sequences of a sequence of strings.
pub open spec fn names_of(v: Seq<String>) -> Seq<Seq<char>> {
    v.map_values(|s: String| s@)
}

/// A module file is recognized by its name ending in the script suffix
/// `.sh` (case-sensitive).
pub open spec fn is_module_name(s: Seq<char>) -> bool {
    &&& s.len() >= 3
    &&& s[s.len() - 3] == '.'
    &&& s[s.len() - 2] == 's'
    &&& s[s.len() - 1] == 'h'
}

/// The module-name test as a predicate value, for use with `filter`.
pub open spec fn module_name_pred() -> spec_fn(Seq<char>) -> bool {
    |s: Seq<char>| is_module_name(s)
}

/// What the catalog must be for a given directory listing: sorted
/// lexicographically, and holding exactly the names that end in the script
/// suffix, with multiplicity.
pub open spec fn catalog_ok(input: Seq<Seq<char>>, out: Seq<Seq<char>>) -> bool {
    &&& sorted_by(out, lex_leq_on())
    &&& out.to_multiset() == input.filter(module_name_pred()).to_multiset()
}

/// Tests whether a file name ends in the script suffix.
pub fn is_module_file(name: &str) -> (r: bool)
    ensures
        r == is_module_name(name@),
{
    let n: usize = name.unicode_len();
    if n < 3 {
        return false;
    }
    let c1 = name.get_char(n - 3);
    let c2 = name.get_char(n - 2);
    let c3 = name.get_char(n - 1);
    c1 == '.' && c2 == 's' && c3 == 'h'
}

/// Inserts a name into a sorted vector, keeping it sorted.
fn insert_sorted(v: &mut Vec<String>, s: String)
    requires
        sorted_by(names_of(old(v)@), lex_leq_on()),
    ensures
        sorted_by(names_of(final(v)@), lex_leq_on()),
        names_of(final(v)@).to_multiset() == names_of(old(v)@).to_multiset().insert(s@),
{
    let mut i: usize = 0;
    loop
        invariant
            i <= v@.len(),
            v@ == old(v)@,
            forall|j: int| 0 <= j < i ==> lex_leq(v@[j]@, s@),
        ensures
            i <= v@.len(),
            v@ == old(v)@,
            forall|j: int| 0 <= j < i ==> lex_leq(v@[j]@, s@),
            i < v@.len() ==> !lex_leq(v@[i as int]@, s@),
        decreases v@.len() - i,
    {
        if i == v.len() {
            break;
        }
        if !str_le(v[i].as_str(), s.as_str()) {
            break;
        }
        i = i + 1;
    }
    let ghost names0 = names_of(old(v)@);
    let ghost pos = i as int;
    v.insert(i, s);
    proof {
        broadcast use vstd::seq_lib::to_multiset_insert;

        let names1 = names_of(v@);
        names0.insert_ensures(pos, s@);
        assert(names1 =~= names0.insert(pos, s@)) by {
            assert forall|k: int| 0 <= k < names1.len() implies names1[k] == names0.insert(
                pos,
                s@,
            )[k] by {
                if k < pos {
                    assert(v@[k] == old(v)@[k]);
                } else if k == pos {
                } else {
                    assert(v@[k] == old(v)@[k - 1]);
                    assert(names0.insert(pos, s@)[(k - 1) + 1] == names0[k - 1]);
                }
            }
        }
        assert forall|p: int, q: int| 0 <= p < q < names1.len() implies #[trigger] lex_leq_on()(
            names1[p],
            names1[q],
        ) by {
            let leq = lex_leq_on();
            if q < pos {
                assert(leq(names0[p], names0[q]));
            } else if q == pos {
                assert(lex_leq(names0[p], s@));
            } else if p == pos {
                assert(!lex_leq(names0[pos], s@));
                crate::text::lemma_lex_leq_connected(names0[pos], s@);
                if q - 1 > pos {
                    assert(leq(names0[pos], names0[q - 1]));
                    crate::text::lemma_lex_leq_transitive(s@, names0[pos], names0[q - 1]);
                }
            } else if p < pos {
                assert(leq(names0[p], names0[q - 1]));
            } else {
                assert(leq(names0[p - 1], names0[q - 1]));
            }
        }
    }
}

/// Builds the catalog from a directory listing: keeps exactly the names that
/// end in the script suffix and returns them sorted lexicographically, so
/// that the result does not depend on the order in which the directory was
/// walked.
pub fn get_available_modules(entries: &Vec<String>) -> (r: Vec<String>)
    ensures
        catalog_ok(names_of(entries@), names_of(r@)),
{
    let ghost in_names = names_of(entries@);
    let mut out: Vec<String> = Vec::new();
    proof {
        reveal(Seq::filter);
        assert(names_of(out@) =~= Seq::<Seq<char>>::empty());
        assert(in_names.take(0) =~= Seq::<Seq<char>>::empty());
        assert(names_of(out@).to_multiset() == in_names.take(0).filter(
            module_name_pred(),
        ).to_multiset());
    }
    let mut idx: usize = 0;
    while idx < entries.len()
        invariant
            idx <= entries@.len(),
            in_names == names_of(entries@),
            sorted_by(names_of(out@), lex_leq_on()),
            names_of(out@).to_multiset() == in_names.take(idx as int).filter(
                module_name_pred(),
            ).to_multiset(),
        decreases entries@.len() - idx,
    {
        let e = &entries[idx];
        let keep = is_module_file(e.as_str());
        proof {
            reveal(Seq::filter);
            assert(in_names.take(idx as int + 1).drop_last() =~= in_names.take(idx as int));
            assert(in_names.take(idx as int + 1).last() == entries@[idx as int]@);
            assert(module_name_pred()(entries@[idx as int]@) == is_module_name(
                entries@[idx as int]@,
            ));
        }
        if keep {
            insert_sorted(&mut out, e.clone());
            proof {
                broadcast use vstd::seq_lib::to_multiset_build;

                let taken = in_names.take(idx as int).filter(module_name_pred());
                assert(in_names.take(idx as int + 1).filter(module_name_pred()) == taken.push(
                    entries@[idx as int]@,
                ));
                assert(taken.push(entries@[idx as int]@).to_multiset() =~= taken.to_multiset().insert(
                    entries@[idx as int]@,
                ));
            }
        } else {
            proof {
                assert(in_names.take(idx as int + 1).filter(module_name_pred())
                    == in_names.take(idx as int).filter(module_name_pred()));
            }
        }
        idx = idx + 1;
    }
    proof {
        assert(in_names.take(entries@.len() as int) =~= in_names);
    }
    out
}

/// Filtering a sequence and then counting multiplicities is the same as
/// filtering the multiset of the sequence: the filtered contents depend only
/// on what the listing holds, not on its order.
pub proof fn lemma_filter_to_multiset(s: Seq<Seq<char>>, p: spec_fn(Seq<char>) -> bool)
    ensures
        s.filter(p).to_multiset() == s.to_multiset().filter(p),
    decreases s.len(),
{
    broadcast use vstd::multiset::group_multiset_axioms;
    broadcast use vstd::seq_lib::group_to_multiset_ensures;

    reveal(Seq::filter);
    if s.len() == 0 {
        assert forall|a: Seq<char>| s.filter(p).to_multiset().count(a) == s.to_multiset().filter(
            p,
        ).count(a) by {
            assert(!s.contains(a));
            assert(!s.filter(p).contains(a));
        }
        assert(s.filter(p).to_multiset() =~= s.to_multiset().filter(p));
    } else {
        let dl = s.drop_last();
        let x = s.last();
        lemma_filter_to_multiset(dl, p);
        assert(dl.push(x) =~= s);
        assert(s.to_multiset() =~= dl.to_multiset().insert(x));
        if p(x) {
            assert(s.filter(p) == dl.filter(p).push(x));
            assert(s.filter(p).to_multiset() =~= dl.filter(p).to_multiset().insert(x));
            assert forall|a: Seq<char>|
                dl.to_multiset().filter(p).insert(x).count(a) == dl.to_multiset().insert(
                    x,
                ).filter(p).count(a) by {}
            assert(dl.to_multiset().filter(p).insert(x) =~= dl.to_multiset().insert(x).filter(p));
            assert(s.filter(p).to_multiset() =~= s.to_multiset().filter(p));
        } else {
            assert(s.filter(p) == dl.filter(p));
            assert forall|a: Seq<char>|
                dl.to_multiset().filter(p).count(a) == dl.to_multiset().insert(x).filter(p).count(
                    a,
                ) by {}
            assert(dl.to_multiset().filter(p) =~= dl.to_multiset().insert(x).filter(p));
            assert(s.filter(p).to_multiset() =~= s.to_multiset().filter(p));
        }
    }
}

/// Law: the catalog is determined by the directory's contents alone.  Two
/// listings of the same files, walked in any order, yield the same catalog,
/// entry for entry.
pub proof fn lemma_catalog_deterministic(
    in1: Seq<Seq<char>>,
    in2: Seq<Seq<char>>,
    out1: Seq<Seq<char>>,
    out2: Seq<Seq<char>>,
)
    requires
        in1.to_multiset() == in2.to_multiset(),
        catalog_ok(in1, out1),
        catalog_ok(in2, out2),
    ensures
        out1 == out2,
{
    lemma_filter_to_multiset(in1, module_name_pred());
    lemma_filter_to_multiset(in2, module_name_pred());
    lemma_lex_leq_total_ordering();
    lemma_sorted_unique(out1, out2, lex_leq_on());
    assert(out1 =~= out2);
}

/// The display name of a module: the file name with every trailing script
/// suffix stripped, as the menu presents it.
pub open spec fn display_of(s: Seq<char>) -> Seq<char>
    decreases s.len(),
{
    if is_module_name(s) {
        display_of(s.take(s.len() - 3))
    } else {
        s
    }
}

/// Strips the trailing script suffix (repeatedly) from a file name for menu
/// presentation.
pub fn display_name(name: &str) -> (r: String)
    ensures
        r@ == display_of(name@),
{
    let mut n: usize = name.unicode_len();
    proof {
        assert(name@.take(name@.len() as int) =~= name@);
    }
    loop
        invariant
            n <= name@.len(),
            display_of(name@) == display_of(name@.take(n as int)),
        ensures
            n <= name@.len(),
            display_of(name@) == name@.take(n as int),
        decreases n,
    {
        let ghost t = name@.take(n as int);
        if n >= 3 {
            let c1 = name.get_char(n - 3);
            let c2 = name.get_char(n - 2);
            let c3 = name.get_char(n - 1);
            if c1 == '.' && c2 == 's' && c3 == 'h' {
                proof {
                    assert(t[n - 3] == name@[n - 3]);
                    assert(t[n - 2] == name@[n - 2]);
                    assert(t[n - 1] == name@[n - 1]);
                    assert(is_module_name(t));
                    assert(t.take(t.len() - 3) =~= name@.take(n as int - 3));
                }
                n = n - 3;
                continue;
            }
            proof {
                assert(t[n - 3] == name@[n - 3]);
                assert(t[n - 2] == name@[n - 2]);
                assert(t[n - 1] == name@[n - 1]);
                assert(!is_module_name(t));
            }
        }
        proof {
            assert(!is_module_name(t));
            assert(display_of(t) == t);
        }
        break;
    }
    let prefix = name.substring_char(0, n);
    prefix.to_owned()
}

/// The menu letter for a catalog index: `a` for the first entry, `b` for the
/// second, and so on.
pub open spec fn letter_of(i: int) -> char
    recommends
        0 <= i < 26,
{
    ((97 + i) as u8) as char
}

/// Builds one menu line, `  <letter>) <display name>`.  Letters exist only
/// for the first 26 entries.
pub fn menu_line(idx: usize, name: &str) -> (r: String)
    requires
        idx < 26,
    ensures
        r@ == seq![' ', ' ', letter_of(idx as int), ')', ' '] + display_of(name@),
{
    let display = display_name(name);
    let mut line = String::new();
    push_char(&mut line, ' ');
    push_char(&mut line, ' ');
    let letter = (97u8 + idx as u8) as char;
    proof {
        assert(letter == letter_of(idx as int));
    }
    push_char(&mut line, letter);
    push_char(&mut line, ')');
    push_char(&mut line, ' ');
    line.append(display.as_str());
    proof {
        assert(line@ =~= seq![' ', ' ', letter_of(idx as int), ')', ' '] + display_of(name@));
    }
    line
}

/// Builds the whole lettered menu body, one line per catalog entry.
pub fn menu_lines(modules: &Vec<String>) -> (r: Vec<String>)
    requires
        modules@.len() <= 26,
    ensures
        r@.len() == modules@.len(),
        forall|i: int|
            0 <= i < r@.len() ==> r@[i]@ == seq![' ', ' ', letter_of(i), ')', ' '] + display_of(
                modules@[i]@,
            ),
{
    let mut r: Vec<String> = Vec::new();
    let mut idx: usize = 0;
    while idx < modules.len()
        invariant
            idx <= modules@.len(),
            modules@.len() <= 26,
            r@.len() == idx,
            forall|i: int|
                0 <= i < idx ==> r@[i]@ == seq![' ', ' ', letter_of(i), ')', ' '] + display_of(
                    modules@[i]@,
                ),
        decreases modules@.len() - idx,
    {
        let line = menu_line(idx, modules[idx].as_str());
        r.push(line);
        idx = idx + 1;
    }
    r
}

/// Law: a menu letter maps to the same catalog entry on repeated listings of
/// an unchanged directory, whatever order the directory was walked in.
pub proof fn lemma_menu_selection_deterministic(
    in1: Seq<Seq<char>>,
    in2: Seq<Seq<char>>,
    out1: Seq<Seq<char>>,
    out2: Seq<Seq<char>>,
    idx: int,
)
    requires
        in1.to_multiset() == in2.to_multiset(),
        catalog_ok(in1, out1),
        catalog_ok(in2, out2),
        0 <= idx < out1.len(),
    ensures
        idx < out2.len(),
        out1[idx] == out2[idx],
{
    lemma_catalog_deterministic(in1, in2, out1, out2);
}

} // verus!
