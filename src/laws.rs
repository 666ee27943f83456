//! Properties that relate the parser, the directory and the reactor.
use vstd::prelude::*;
use crate::command::{command_meaning, dept_not_found_msg, CommandView};
use crate::company::{department_listing, directory_listing, strictly_sorted, Company};
use crate::department::{dept_at, dept_of, dept_rank, lemma_rank_at, Department, DEPARTMENT_COUNT};
use crate::text::{
    lemma_text_lt_irreflexive, lemma_text_lt_transitive, text_lt, tokens, tokens_from, white_space,
};

verus! {

proof fn lemma_blank_tail(s: Seq<char>, i: int, acc: Seq<Seq<char>>)
    requires
        0 <= i <= s.len(),
        forall|k: int| i <= k < s.len() ==> white_space(#[trigger] s[k]),
    ensures
        tokens_from(s, i, Seq::empty(), acc) == acc,
    decreases s.len() - i,
{
    if i < s.len() {
        lemma_blank_tail(s, i + 1, acc);
    }
}

/// A line that is empty or holds only whitespace has no token and parses as
/// `Empty`.
pub proof fn lemma_blank_line_is_empty(s: Seq<char>)
    requires
        forall|k: int| 0 <= k < s.len() ==> white_space(#[trigger] s[k]),
    ensures
        tokens(s) == Seq::<Seq<char>>::empty(),
        command_meaning(tokens(s)) == CommandView::Empty,
{
    lemma_blank_tail(s, 0, Seq::empty());
}

/// A token that names no department is refused with the same error by
/// `list <token>` and by `add <name> to <token>`.
pub proof fn lemma_unknown_department(tok: Seq<char>, name: Seq<char>)
    requires
        dept_of(tok) is None,
    ensures
        command_meaning(seq!["list"@, tok]) == CommandView::Illegal(dept_not_found_msg()),
        command_meaning(seq!["add"@, name, "to"@, tok]) == CommandView::Illegal(
            dept_not_found_msg(),
        ),
{
    reveal_strlit("list");
    reveal_strlit("add");
    assert("list"@.len() != "add"@.len());
    let l = seq!["list"@, tok];
    assert(l[0] == "list"@ && l[1] == tok && l.len() == 2);
    let t = seq!["add"@, name, "to"@, tok];
    assert(t.drop_first() =~= seq![name, "to"@, tok]);
}

/// Two sorted lists without repetition that hold the same names are equal.
proof fn lemma_sorted_unique(a: Seq<Seq<char>>, b: Seq<Seq<char>>)
    requires
        strictly_sorted(a),
        strictly_sorted(b),
        a.to_set() == b.to_set(),
    ensures
        a == b,
    decreases a.len(),
{
    if a.len() == 0 {
        if b.len() > 0 {
            assert(b.to_set().contains(b[0]));
        }
        assert(a =~= b);
    } else {
        assert(a.to_set().contains(a[0]));
        let m = choose|m: int| 0 <= m < b.len() && b[m] == a[0];
        assert(b.to_set().contains(b[0]));
        let n = choose|n: int| 0 <= n < a.len() && a[n] == b[0];
        if m != 0 {
            assert(text_lt(b[0], b[m]));
            if n != 0 {
                assert(text_lt(a[0], a[n]));
                lemma_text_lt_transitive(a[0], b[0], a[0]);
            }
            lemma_text_lt_irreflexive(a[0]);
        }
        let a2 = a.drop_first();
        let b2 = b.drop_first();
        assert(a2.to_set() =~= b2.to_set()) by {
            assert forall|x: Seq<char>| a2.to_set().contains(x) implies b2.to_set().contains(x) by {
                let i = choose|i: int| 0 <= i < a2.len() && a2[i] == x;
                assert(text_lt(a[0], a[i + 1]));
                lemma_text_lt_irreflexive(x);
                assert(a.to_set().contains(x));
                let j = choose|j: int| 0 <= j < b.len() && b[j] == x;
                assert(b2[j - 1] == x);
            }
            assert forall|x: Seq<char>| b2.to_set().contains(x) implies a2.to_set().contains(x) by {
                let i = choose|i: int| 0 <= i < b2.len() && b2[i] == x;
                assert(text_lt(b[0], b[i + 1]));
                lemma_text_lt_irreflexive(x);
                assert(b.to_set().contains(x));
                let j = choose|j: int| 0 <= j < a.len() && a[j] == x;
                assert(a2[j - 1] == x);
            }
        }
        lemma_sorted_unique(a2, b2);
        assert(a =~= b) by {
            assert forall|i: int| 0 <= i < a.len() implies a[i] == b[i] by {
                if i > 0 {
                    assert(a[i] == a2[i - 1]);
                }
            }
        }
    }
}

/// The directory of a well-formed company is fixed by who belongs to which
/// department, whatever order the employees were added in; so are its
/// listings.
pub proof fn lemma_listing_by_members(c1: Company, c2: Company)
    requires
        c1.wf(),
        c2.wf(),
        forall|d: Department| #[trigger] c1.members(d) == c2.members(d),
    ensures
        c1.roster() == c2.roster(),
        directory_listing(c1.roster()) == directory_listing(c2.roster()),
        forall|d: Department|
            #[trigger] department_listing(c1.staff(d)) == department_listing(c2.staff(d)),
{
    assert forall|k: int| 0 <= k < DEPARTMENT_COUNT implies c1.roster()[k] == c2.roster()[k] by {
        let d = dept_at(k);
        lemma_rank_at(d, k);
        assert(c1.members(d) == c2.members(d));
        lemma_sorted_unique(c1.roster()[k], c2.roster()[k]);
    }
    assert(c1.roster() =~= c2.roster());
}

proof fn lemma_members_of_added(c: Company, prev: Company, e: Seq<char>, d: Department)
    requires
        c.is_added(prev, e, d),
    ensures
        forall|x: Department|
            #[trigger] c.members(x) == if x == d {
                prev.members(d).insert(e)
            } else {
                prev.members(x)
            },
{
    assert forall|x: Department| x != d implies #[trigger] c.members(x) == prev.members(x) by {
        lemma_rank_at(x, 0);
        lemma_rank_at(d, 0);
        assert(c.roster()[dept_rank(x)] == prev.roster()[dept_rank(x)]);
    }
}

/// Adding an employee to a department a second time changes nothing.
pub proof fn lemma_add_twice(c0: Company, c1: Company, c2: Company, e: Seq<char>, d: Department)
    requires
        c0.wf(),
        c1.wf(),
        c2.wf(),
        c1.is_added(c0, e, d),
        c2.is_added(c1, e, d),
    ensures
        c2.roster() == c1.roster(),
        directory_listing(c2.roster()) == directory_listing(c1.roster()),
{
    lemma_members_of_added(c2, c1, e, d);
    assert(c1.members(d).insert(e) =~= c1.members(d)) by {
        lemma_members_of_added(c1, c0, e, d);
    }
    lemma_listing_by_members(c2, c1);
}

/// Two additions made in either order give the same directory and the same
/// listings.
pub proof fn lemma_add_commutes(
    c0: Company,
    a1: Company,
    a2: Company,
    b1: Company,
    b2: Company,
    e1: Seq<char>,
    d1: Department,
    e2: Seq<char>,
    d2: Department,
)
    requires
        c0.wf(),
        a2.wf(),
        b2.wf(),
        a1.is_added(c0, e1, d1),
        a2.is_added(a1, e2, d2),
        b1.is_added(c0, e2, d2),
        b2.is_added(b1, e1, d1),
    ensures
        a2.roster() == b2.roster(),
        directory_listing(a2.roster()) == directory_listing(b2.roster()),
{
    lemma_members_of_added(a1, c0, e1, d1);
    lemma_members_of_added(a2, a1, e2, d2);
    lemma_members_of_added(b1, c0, e2, d2);
    lemma_members_of_added(b2, b1, e1, d1);
    assert forall|d: Department| #[trigger] a2.members(d) == b2.members(d) by {
        if d == d1 && d == d2 {
            assert(c0.members(d).insert(e1).insert(e2) =~= c0.members(d).insert(e2).insert(e1));
        }
    }
    lemma_listing_by_members(a2, b2);
}

} // verus!
