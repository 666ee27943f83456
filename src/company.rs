//! The directory of a company: which employees belong to which department,
//! and the reactor that applies commands to it.
use vstd::prelude::*;
use crate::command::{Command, CommandView, Employee};
use crate::department::{dept_at, dept_name, dept_rank, lemma_rank_at, Department, DEPARTMENT_COUNT};
use crate::text::{lemma_text_lt_total, lemma_text_lt_transitive, same_text, text_less, text_lt};

verus! {

/// Each name comes before every later one, so no name occurs twice.
pub open spec fn strictly_sorted(s: Seq<Seq<char>>) -> bool {
    forall|i: int, j: int| 0 <= i < j < s.len() ==> text_lt(#[trigger] s[i], #[trigger] s[j])
}

/// A company and its directory. Departments are kept in name order, each
/// with its employees sorted by name; a department with no employee is one
/// that was never added to.
pub struct Company {
    name: String,
    employees: Vec<Vec<Employee>>,
}

impl Company {
    /// The names of the employees of each department, by department rank.
    pub closed spec fn roster(&self) -> Seq<Seq<Seq<char>>> {
        self.employees@.map_values(|v: Vec<Employee>| v@.map_values(|e: Employee| e@))
    }

    /// The names of the employees of `d`, in order.
    pub open spec fn staff(&self, d: Department) -> Seq<Seq<char>> {
        self.roster()[dept_rank(d)]
    }

    /// The set of names of the employees of `d`.
    pub open spec fn members(&self, d: Department) -> Set<Seq<char>> {
        self.staff(d).to_set()
    }

    /// One list per department, each sorted by name without repetition.
    pub open spec fn wf(&self) -> bool {
        &&& self.roster().len() == DEPARTMENT_COUNT
        &&& forall|k: int| 0 <= k < DEPARTMENT_COUNT ==> strictly_sorted(#[trigger] self.roster()[k])
    }

    /// `self` is `prev` with employee `e` added to `d`: the other departments
    /// and the company's name are as they were.
    pub open spec fn is_added(&self, prev: Company, e: Seq<char>, d: Department) -> bool {
        &&& self.name_view() == prev.name_view()
        &&& self.members(d) == prev.members(d).insert(e)
        &&& forall|k: int|
            0 <= k < DEPARTMENT_COUNT && k != dept_rank(d) ==> #[trigger] self.roster()[k]
                == prev.roster()[k]
    }

    /// The company's name.
    pub closed spec fn name_view(&self) -> Seq<char> {
        self.name@
    }

    /// A company with no employees.
    pub fn new(name: String) -> (r: Company)
        ensures
            r.wf(),
            r.name_view() == name@,
            forall|d: Department| #[trigger] r.staff(d).len() == 0,
    {
        let mut employees: Vec<Vec<Employee>> = Vec::new();
        let mut k: usize = 0;
        while k < DEPARTMENT_COUNT
            invariant
                k <= DEPARTMENT_COUNT,
                employees@.len() == k,
                forall|i: int| 0 <= i < k ==> (#[trigger] employees@[i])@.len() == 0,
            decreases DEPARTMENT_COUNT - k,
        {
            employees.push(Vec::new());
            k = k + 1;
        }
        let r = Company { name, employees };
        assert forall|d: Department| #[trigger] r.staff(d).len() == 0 by {
            lemma_rank_at(d, 0);
        }
        r
    }

    /// The company's name.
    pub fn name(&self) -> (r: &str)
        ensures
            r@ == self.name_view(),
    {
        self.name.as_str()
    }
}

/// Inserting `e` where it belongs keeps a list sorted and adds `e` to its set.
proof fn lemma_insert_sorted(s: Seq<Seq<char>>, j: int, e: Seq<char>)
    requires
        strictly_sorted(s),
        0 <= j <= s.len(),
        forall|i: int| 0 <= i < j ==> text_lt(#[trigger] s[i], e),
        j < s.len() ==> text_lt(e, s[j]),
    ensures
        strictly_sorted(s.insert(j, e)),
        s.insert(j, e).to_set() == s.to_set().insert(e),
{
    let t = s.insert(j, e);
    assert forall|a: int, b: int| 0 <= a < b < t.len() implies text_lt(
        #[trigger] t[a],
        #[trigger] t[b],
    ) by {
        if a == j && b - 1 > j {
            lemma_text_lt_transitive(e, s[j], s[b - 1]);
        }
    }
    assert(t.to_set() =~= s.to_set().insert(e)) by {
        assert forall|x: Seq<char>| t.to_set().contains(x) implies s.to_set().insert(e).contains(
            x,
        ) by {
            let i = choose|i: int| 0 <= i < t.len() && t[i] == x;
            if i < j {
                assert(s[i] == x);
            } else if i > j {
                assert(s[i - 1] == x);
            }
        }
        assert forall|x: Seq<char>| s.to_set().insert(e).contains(x) implies t.to_set().contains(
            x,
        ) by {
            if x == e {
                assert(t[j] == x);
            } else {
                let i = choose|i: int| 0 <= i < s.len() && s[i] == x;
                if i < j {
                    assert(t[i] == x);
                } else {
                    assert(t[i + 1] == x);
                }
            }
        }
    }
}

/// Adds `emp` to `dept`; adding an employee already there changes nothing.
pub fn add_employee(comp: &mut Company, emp: Employee, dept: Department)
    requires
        old(comp).wf(),
    ensures
        final(comp).wf(),
        final(comp).is_added(*old(comp), emp@, dept),
{
    let k = dept.rank();
    let ghost s = comp.roster()[k as int];
    let ghost e = emp@;
    let mut j: usize = 0;
    let n = comp.employees[k].len();
    while j < n && text_less(comp.employees[k][j].first_name.as_str(), emp.first_name.as_str())
        invariant
            k < DEPARTMENT_COUNT,
            comp.wf(),
            s == comp.roster()[k as int],
            e == emp@,
            n == s.len(),
            j <= n,
            forall|i: int| 0 <= i < j ==> text_lt(#[trigger] s[i], e),
        decreases n - j,
    {
        j = j + 1;
    }
    if j < n && same_text(comp.employees[k][j].first_name.as_str(), emp.first_name.as_str()) {
        proof {
            assert(s[j as int] == e);
            assert(s.to_set().contains(s[j as int]));
            assert(s.to_set().insert(e) =~= s.to_set());
        }
        return;
    }
    proof {
        if j < n {
            lemma_text_lt_total(e, s[j as int]);
        }
        lemma_insert_sorted(s, j as int, e);
    }
    let ghost before = *comp;
    comp.employees[k].insert(j, emp);
    proof {
        assert(comp.roster()[k as int] =~= s.insert(j as int, e));
        assert forall|m: int| 0 <= m < DEPARTMENT_COUNT && m != k implies #[trigger] comp.roster()[m]
            == before.roster()[m] by {}
    }
}

/// One line per name, in order: `name\n`.
pub open spec fn name_lines(s: Seq<Seq<char>>) -> Seq<char>
    decreases s.len(),
{
    if s.len() == 0 {
        Seq::empty()
    } else {
        name_lines(s.drop_last()) + s.last() + "\n"@
    }
}

/// One indented line per name, in order: `\tname\n`.
pub open spec fn indented_lines(s: Seq<Seq<char>>) -> Seq<char>
    decreases s.len(),
{
    if s.len() == 0 {
        Seq::empty()
    } else {
        indented_lines(s.drop_last()) + "\t"@ + s.last() + "\n"@
    }
}

/// The answer given when a department has no employee.
pub open spec fn no_employees_msg() -> Seq<char> {
    "There are no employees assigned to this department."@
}

/// The listing of one department with employees `s`.
pub open spec fn department_listing(s: Seq<Seq<char>>) -> Seq<char> {
    if s.len() == 0 {
        no_employees_msg()
    } else {
        name_lines(s)
    }
}

/// The block of department `d` with employees `s` in the full listing: a
/// header, the indented names and a blank line; nothing when `s` is empty.
pub open spec fn department_block(d: Department, s: Seq<Seq<char>>) -> Seq<char> {
    if s.len() == 0 {
        Seq::empty()
    } else {
        dept_name(d) + "\n"@ + indented_lines(s) + "\n"@
    }
}

/// The blocks of the first `n` departments in name order.
pub open spec fn blocks_upto(r: Seq<Seq<Seq<char>>>, n: int) -> Seq<char>
    decreases n,
{
    if n <= 0 {
        Seq::empty()
    } else {
        blocks_upto(r, n - 1) + department_block(dept_at(n - 1), r[n - 1])
    }
}

/// The full listing of a directory `r` (one name list per department rank).
pub open spec fn directory_listing(r: Seq<Seq<Seq<char>>>) -> Seq<char> {
    blocks_upto(r, DEPARTMENT_COUNT as int)
}

/// The confirmation given for adding `e` to `d`.
pub open spec fn added_msg(e: Seq<char>, d: Department) -> Seq<char> {
    "Successfully added "@ + e + " into "@ + dept_name(d) + "."@
}

/// The employees of `dept`, one per line in name order, or a message saying
/// that it has none.
pub fn list_for_department(comp: &Company, dept: &Department) -> (r: String)
    requires
        comp.wf(),
    ensures
        r@ == department_listing(comp.staff(*dept)),
{
    let k = dept.rank();
    let list = &comp.employees[k];
    let ghost s = comp.staff(*dept);
    if list.len() == 0 {
        return String::from_str("There are no employees assigned to this department.");
    }
    let mut res = String::new();
    let mut i: usize = 0;
    while i < list.len()
        invariant
            k < DEPARTMENT_COUNT,
            comp.wf(),
            s == comp.roster()[k as int],
            list == comp.employees@[k as int],
            s.len() == list@.len(),
            i <= s.len(),
            res@ == name_lines(s.take(i as int)),
        decreases list@.len() - i,
    {
        res.append(list[i].first_name.as_str());
        res.append("\n");
        proof {
            assert(s[i as int] == list@[i as int]@);
            assert(s.take(i + 1).drop_last() =~= s.take(i as int));
            assert(s.take(i + 1).last() == s[i as int]);
        }
        i = i + 1;
    }
    assert(s.take(s.len() as int) =~= s);
    res
}

/// Every department with employees, in name order: its name, then each
/// employee on an indented line, then a blank line.
pub fn list_all(comp: &Company) -> (r: String)
    requires
        comp.wf(),
    ensures
        r@ == directory_listing(comp.roster()),
{
    let ghost r = comp.roster();
    let mut res = String::new();
    let mut k: usize = 0;
    while k < DEPARTMENT_COUNT
        invariant
            comp.wf(),
            r == comp.roster(),
            k <= DEPARTMENT_COUNT,
            res@ == blocks_upto(r, k as int),
        decreases DEPARTMENT_COUNT - k,
    {
        let list = &comp.employees[k];
        let ghost s = r[k as int];
        let ghost prefix = res@;
        if list.len() > 0 {
            let dept = Department::at(k);
            res.append(dept.name());
            res.append("\n");
            let mut i: usize = 0;
            while i < list.len()
                invariant
                    k < DEPARTMENT_COUNT,
                    comp.wf(),
                    r == comp.roster(),
                    s == r[k as int],
                    list == comp.employees@[k as int],
                    s.len() == list@.len(),
                    i <= s.len(),
                    res@ == prefix + dept_name(dept) + "\n"@ + indented_lines(s.take(i as int)),
                decreases list@.len() - i,
            {
                res.append("\t");
                res.append(list[i].first_name.as_str());
                res.append("\n");
                proof {
                    assert(s[i as int] == list@[i as int]@);
                    assert(s.take(i + 1).drop_last() =~= s.take(i as int));
                    assert(s.take(i + 1).last() == s[i as int]);
                    assert(res@ =~= prefix + dept_name(dept) + "\n"@ + indented_lines(
                        s.take(i + 1),
                    ));
                }
                i = i + 1;
            }
            res.append("\n");
            proof {
                assert(s.take(s.len() as int) =~= s);
                assert(res@ =~= prefix + department_block(dept, s));
            }
        }
        k = k + 1;
    }
    res
}

/// Applies a command to the company and gives the answer to show. `Quit` is
/// for the caller to act on and never reaches here.
pub fn react(comp: &mut Company, cmd: Command) -> (r: String)
    requires
        old(comp).wf(),
        !(cmd is Quit),
    ensures
        final(comp).wf(),
        match cmd@ {
            CommandView::Add(e, d) => r@ == added_msg(e, d) && final(comp).is_added(*old(comp), e, d),
            CommandView::List(d) => r@ == department_listing(old(comp).staff(d)) && *final(comp)
                == *old(comp),
            CommandView::ListAll => r@ == directory_listing(old(comp).roster()) && *final(comp)
                == *old(comp),
            CommandView::Illegal(m) => r@ == m && *final(comp) == *old(comp),
            CommandView::Empty => r@ == Seq::<char>::empty() && *final(comp) == *old(comp),
            CommandView::Quit => false,
        },
{
    match cmd {
        Command::Add(emp, dept) => {
            let mut res = String::from_str("Successfully added ");
            res.append(emp.first_name.as_str());
            res.append(" into ");
            res.append(dept.name());
            res.append(".");
            add_employee(comp, emp, dept);
            res
        },
        Command::List(dept) => list_for_department(comp, &dept),
        Command::ListAll => list_all(comp),
        Command::Illegal(msg) => String::from_str(msg),
        Command::Empty => String::new(),
        Command::Quit => String::new(),
    }
}

} // verus!
