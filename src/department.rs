//! The fixed set of departments, their names and their order.
use vstd::prelude::*;
use crate::text::{lemma_text_lt_irreflexive, same_text, text_lt};

verus! {

/// The number of departments.
pub const DEPARTMENT_COUNT: usize = 8;

/// A department of the company. The variants are declared in the order of
/// their names, so the derived order is the order of the names.
#[derive(Debug, Clone, Copy, PartialEq, Eq, Structural, Hash, PartialOrd, Ord)]
pub enum Department {
    Accounting,
    CustomerService,
    Finance,
    HR,
    IT,
    Marketing,
    QA,
    Sales,
}

/// The symbolic name of a department.
pub open spec fn dept_name(d: Department) -> Seq<char> {
    match d {
        Department::Accounting => "Accounting"@,
        Department::CustomerService => "CustomerService"@,
        Department::Finance => "Finance"@,
        Department::HR => "HR"@,
        Department::IT => "IT"@,
        Department::Marketing => "Marketing"@,
        Department::QA => "QA"@,
        Department::Sales => "Sales"@,
    }
}

/// The position of a department when departments are sorted by name.
pub open spec fn dept_rank(d: Department) -> int {
    match d {
        Department::Accounting => 0,
        Department::CustomerService => 1,
        Department::Finance => 2,
        Department::HR => 3,
        Department::IT => 4,
        Department::Marketing => 5,
        Department::QA => 6,
        Department::Sales => 7,
    }
}

/// The department at position `i` in name order.
pub open spec fn dept_at(i: int) -> Department {
    if i <= 0 {
        Department::Accounting
    } else if i == 1 {
        Department::CustomerService
    } else if i == 2 {
        Department::Finance
    } else if i == 3 {
        Department::HR
    } else if i == 4 {
        Department::IT
    } else if i == 5 {
        Department::Marketing
    } else if i == 6 {
        Department::QA
    } else {
        Department::Sales
    }
}

/// The department whose name is exactly `s` (case-sensitive), if any.
pub open spec fn dept_of(s: Seq<char>) -> Option<Department> {
    if s == dept_name(Department::Accounting) {
        Some(Department::Accounting)
    } else if s == dept_name(Department::CustomerService) {
        Some(Department::CustomerService)
    } else if s == dept_name(Department::Finance) {
        Some(Department::Finance)
    } else if s == dept_name(Department::HR) {
        Some(Department::HR)
    } else if s == dept_name(Department::IT) {
        Some(Department::IT)
    } else if s == dept_name(Department::Marketing) {
        Some(Department::Marketing)
    } else if s == dept_name(Department::QA) {
        Some(Department::QA)
    } else if s == dept_name(Department::Sales) {
        Some(Department::Sales)
    } else {
        None
    }
}

/// Ranks and positions are inverse, and ranks lie below `DEPARTMENT_COUNT`.
pub proof fn lemma_rank_at(d: Department, i: int)
    ensures
        0 <= dept_rank(d) < DEPARTMENT_COUNT,
        dept_at(dept_rank(d)) == d,
        0 <= i < DEPARTMENT_COUNT ==> dept_rank(dept_at(i)) == i,
{
}

/// Departments sorted by rank are sorted by name.
pub proof fn lemma_names_in_rank_order(i: int, j: int)
    requires
        0 <= i < j < DEPARTMENT_COUNT,
    ensures
        text_lt(dept_name(dept_at(i)), dept_name(dept_at(j))),
{
    reveal_strlit("Accounting");
    reveal_strlit("CustomerService");
    reveal_strlit("Finance");
    reveal_strlit("HR");
    reveal_strlit("IT");
    reveal_strlit("Marketing");
    reveal_strlit("QA");
    reveal_strlit("Sales");
    let a = dept_name(dept_at(i));
    let b = dept_name(dept_at(j));
    assert(a[0] != b[0] && a[0] < b[0]);
}

/// Different departments have different names.
pub proof fn lemma_names_distinct(d: Department, e: Department)
    requires
        d != e,
    ensures
        dept_name(d) != dept_name(e),
{
    lemma_rank_at(d, 0);
    lemma_rank_at(e, 0);
    lemma_text_lt_irreflexive(dept_name(d));
    if dept_rank(d) < dept_rank(e) {
        lemma_names_in_rank_order(dept_rank(d), dept_rank(e));
    } else {
        lemma_names_in_rank_order(dept_rank(e), dept_rank(d));
    }
}

/// A department's own name parses to it.
pub proof fn lemma_name_parses(d: Department)
    ensures
        dept_of(dept_name(d)) == Some(d),
{
    lemma_names_distinct_all();
}

proof fn lemma_names_distinct_all()
    ensures
        forall|d: Department, e: Department| d != e ==> dept_name(d) != dept_name(e),
{
    assert forall|d: Department, e: Department| d != e implies dept_name(d) != dept_name(e) by {
        lemma_names_distinct(d, e);
    }
}

impl Department {
    /// The symbolic name.
    pub fn name(&self) -> (r: &'static str)
        ensures
            r@ == dept_name(*self),
    {
        match self {
            Department::Accounting => "Accounting",
            Department::CustomerService => "CustomerService",
            Department::Finance => "Finance",
            Department::HR => "HR",
            Department::IT => "IT",
            Department::Marketing => "Marketing",
            Department::QA => "QA",
            Department::Sales => "Sales",
        }
    }

    /// The position in name order.
    pub fn rank(&self) -> (r: usize)
        ensures
            r == dept_rank(*self),
            r < DEPARTMENT_COUNT,
    {
        match self {
            Department::Accounting => 0,
            Department::CustomerService => 1,
            Department::Finance => 2,
            Department::HR => 3,
            Department::IT => 4,
            Department::Marketing => 5,
            Department::QA => 6,
            Department::Sales => 7,
        }
    }

    /// The department at position `i` in name order.
    pub fn at(i: usize) -> (r: Department)
        requires
            i < DEPARTMENT_COUNT,
        ensures
            r == dept_at(i as int),
    {
        if i == 0 {
            Department::Accounting
        } else if i == 1 {
            Department::CustomerService
        } else if i == 2 {
            Department::Finance
        } else if i == 3 {
            Department::HR
        } else if i == 4 {
            Department::IT
        } else if i == 5 {
            Department::Marketing
        } else if i == 6 {
            Department::QA
        } else {
            Department::Sales
        }
    }
}

/// The department named exactly `token`, or `None` when no department has
/// that name.
pub fn dept_from_string(token: &str) -> (r: Option<Department>)
    ensures
        r == dept_of(token@),
{
    let all: [Department; DEPARTMENT_COUNT] = [
        Department::Accounting,
        Department::CustomerService,
        Department::Finance,
        Department::HR,
        Department::IT,
        Department::Marketing,
        Department::QA,
        Department::Sales,
    ];
    let mut i: usize = 0;
    while i < DEPARTMENT_COUNT
        invariant
            forall|k: int| 0 <= k < DEPARTMENT_COUNT ==> all@[k] == dept_at(k),
            i <= DEPARTMENT_COUNT,
            forall|k: int| 0 <= k < i ==> token@ != dept_name(#[trigger] dept_at(k)),
        decreases DEPARTMENT_COUNT - i,
    {
        let d = all[i];
        if same_text(token, d.name()) {
            proof {
                lemma_names_distinct_all();
            }
            return Some(d);
        }
        i = i + 1;
    }
    proof {
        assert(token@ != dept_name(dept_at(0)));
        assert(token@ != dept_name(dept_at(1)));
        assert(token@ != dept_name(dept_at(2)));
        assert(token@ != dept_name(dept_at(3)));
        assert(token@ != dept_name(dept_at(4)));
        assert(token@ != dept_name(dept_at(5)));
        assert(token@ != dept_name(dept_at(6)));
        assert(token@ != dept_name(dept_at(7)));
    }
    None
}

} // verus!
