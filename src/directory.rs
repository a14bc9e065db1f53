//! The employee directory: departments, each with its employees, all kept in
//! ascending order of name.
use vstd::prelude::*;

use crate::text::{chars_less, chars_of, lex_lt, lemma_lex_irreflexive, lemma_lex_total, lemma_lex_transitive};

verus! {

/// Names in strictly ascending order (so each one occurs once).
pub open spec fn ascending(s: Seq<Seq<char>>) -> bool {
    forall|i: int, j: int| 0 <= i < j < s.len() ==> lex_lt(#[trigger] s[i], #[trigger] s[j])
}

/// How many names at the front of `s` sort before `x`: in an ascending
/// sequence, the place where `x` stands or belongs.
pub open spec fn rank(s: Seq<Seq<char>>, x: Seq<char>) -> nat
    decreases s.len(),
{
    if s.len() > 0 && lex_lt(s[0], x) {
        1 + rank(s.drop_first(), x)
    } else {
        0
    }
}

/// `s` with `x` added in its place, unless it is there already.
pub open spec fn insert_name(s: Seq<Seq<char>>, x: Seq<char>) -> Seq<Seq<char>> {
    if s.contains(x) {
        s
    } else {
        s.insert(rank(s, x) as int, x)
    }
}

/// A department: its name and its employees.
pub type Roster = (Seq<char>, Seq<Seq<char>>);

/// The department names of a directory, in its order.
pub open spec fn names(v: Seq<Roster>) -> Seq<Seq<char>> {
    v.map_values(|e: Roster| e.0)
}

/// A well-formed directory: departments in ascending order of name, each with
/// at least one employee, its employees in ascending order.
pub open spec fn well_formed(v: Seq<Roster>) -> bool {
    &&& ascending(names(v))
    &&& forall|i: int| 0 <= i < v.len() ==> (#[trigger] v[i]).1.len() > 0 && ascending(v[i].1)
}

/// The employees of department `d`, if it exists.
pub open spec fn employees_in(v: Seq<Roster>, d: Seq<char>) -> Option<Seq<Seq<char>>> {
    let i = rank(names(v), d) as int;
    if i < v.len() && v[i].0 == d {
        Some(v[i].1)
    } else {
        None
    }
}

/// Whether employee `e` is listed in department `d`.
pub open spec fn has_employee(v: Seq<Roster>, e: Seq<char>, d: Seq<char>) -> bool {
    match employees_in(v, d) {
        Some(l) => l.contains(e),
        None => false,
    }
}

/// The directory after adding employee `e` to department `d`: the department
/// is created where its name belongs, or `e` joins it in order.
pub open spec fn with_employee(v: Seq<Roster>, e: Seq<char>, d: Seq<char>) -> Seq<Roster> {
    let i = rank(names(v), d) as int;
    if i < v.len() && v[i].0 == d {
        v.update(i, (d, insert_name(v[i].1, e)))
    } else {
        v.insert(i, (d, seq![e]))
    }
}

/// What `rank` tells: every name before it sorts before `x`, the one at it does not.
pub proof fn lemma_rank_bounds(s: Seq<Seq<char>>, x: Seq<char>)
    ensures
        rank(s, x) <= s.len(),
        forall|j: int| 0 <= j < rank(s, x) ==> lex_lt(#[trigger] s[j], x),
        rank(s, x) < s.len() ==> !lex_lt(s[rank(s, x) as int], x),
    decreases s.len(),
{
    if s.len() > 0 && lex_lt(s[0], x) {
        lemma_rank_bounds(s.drop_first(), x);
        assert forall|j: int| 0 <= j < rank(s, x) implies lex_lt(#[trigger] s[j], x) by {
            if j > 0 {
                assert(s[j] == s.drop_first()[j - 1]);
            }
        }
    }
}

/// A place before which every name sorts before `x`, and at which the name
/// does not, is the rank of `x`.
pub proof fn lemma_rank_at(s: Seq<Seq<char>>, x: Seq<char>, i: int)
    requires
        0 <= i <= s.len(),
        forall|j: int| 0 <= j < i ==> lex_lt(#[trigger] s[j], x),
        i < s.len() ==> !lex_lt(s[i], x),
    ensures
        rank(s, x) == i,
    decreases i,
{
    if i > 0 {
        assert(lex_lt(s[0], x));
        assert forall|j: int| 0 <= j < i - 1 implies lex_lt(#[trigger] s.drop_first()[j], x) by {
            assert(s.drop_first()[j] == s[j + 1]);
        }
        lemma_rank_at(s.drop_first(), x, i - 1);
    }
}

/// In an ascending sequence, `x` occurs exactly where its rank says.
pub proof fn lemma_rank_finds(s: Seq<Seq<char>>, x: Seq<char>)
    requires
        ascending(s),
    ensures
        s.contains(x) <==> (rank(s, x) < s.len() && s[rank(s, x) as int] == x),
{
    lemma_rank_bounds(s, x);
    if s.contains(x) {
        let k = choose|k: int| 0 <= k < s.len() && s[k] == x;
        lemma_lex_irreflexive(x);
        lemma_rank_at(s, x, k);
    }
}

/// Adding a missing name at its rank keeps a sequence ascending.
pub proof fn lemma_insert_ascending(s: Seq<Seq<char>>, x: Seq<char>)
    requires
        ascending(s),
    ensures
        ascending(insert_name(s, x)),
        insert_name(s, x).contains(x),
        forall|y: Seq<char>| s.contains(y) ==> #[trigger] insert_name(s, x).contains(y),
        forall|y: Seq<char>| #[trigger] insert_name(s, x).contains(y) ==> y == x || s.contains(y),
{
    lemma_rank_bounds(s, x);
    lemma_rank_finds(s, x);
    let r = insert_name(s, x);
    if !s.contains(x) {
        let k = rank(s, x) as int;
        if k < s.len() {
            lemma_lex_total(s[k], x);
        }
        assert forall|i: int, j: int| 0 <= i < j < r.len() implies lex_lt(
            #[trigger] r[i],
            #[trigger] r[j],
        ) by {
            if j < k {
            } else if j == k {
            } else if i < k {
                lemma_lex_transitive(r[i], x, s[k]);
                if j > k + 1 {
                    lemma_lex_transitive(r[i], s[k], r[j]);
                }
            } else if i == k {
                if j > k + 1 {
                    lemma_lex_transitive(x, s[k], r[j]);
                }
            } else {
            }
        }
        assert(r[k] == x);
        assert forall|y: Seq<char>| s.contains(y) implies #[trigger] r.contains(y) by {
            let m = choose|m: int| 0 <= m < s.len() && s[m] == y;
            if m < k {
                assert(r[m] == y);
            } else {
                assert(r[m + 1] == y);
            }
        }
        assert forall|y: Seq<char>| #[trigger] r.contains(y) implies y == x || s.contains(y) by {
            let m = choose|m: int| 0 <= m < r.len() && r[m] == y;
            if m < k {
                assert(s[m] == y);
            } else if m > k {
                assert(s[m - 1] == y);
            }
        }
    }
}


/// The employees of `d`, none where it does not exist.
pub open spec fn roster_of(v: Seq<Roster>, d: Seq<char>) -> Seq<Seq<char>> {
    match employees_in(v, d) {
        Some(l) => l,
        None => Seq::empty(),
    }
}

/// Adding `e` to `d` keeps a directory well formed, and `d` then lists its old
/// employees with `e` in its place.
pub proof fn lemma_with_employee(v: Seq<Roster>, e: Seq<char>, d: Seq<char>)
    requires
        well_formed(v),
    ensures
        well_formed(with_employee(v, e, d)),
        employees_in(with_employee(v, e, d), d) == Some(insert_name(roster_of(v, d), e)),
{
    let w = with_employee(v, e, d);
    let i = rank(names(v), d) as int;
    lemma_rank_bounds(names(v), d);
    lemma_rank_finds(names(v), d);
    if i < v.len() && v[i].0 == d {
        lemma_insert_ascending(v[i].1, e);
        assert(names(w) =~= names(v));
        assert forall|j: int| 0 <= j < w.len() implies (#[trigger] w[j]).1.len() > 0 && ascending(
            w[j].1,
        ) by {
            if j == i {
                assert(w[j].1.contains(e));
            }
        }
    } else {
        assert(names(w) =~= insert_name(names(v), d));
        lemma_insert_ascending(names(v), d);
        assert forall|j: int| 0 <= j < w.len() implies (#[trigger] w[j]).1.len() > 0 && ascending(
            w[j].1,
        ) by {
            if j < i {
                assert(w[j] == v[j]);
            } else if j > i {
                assert(w[j] == v[j - 1]);
            }
        }
        lemma_lex_irreflexive(d);
        assert forall|j: int| 0 <= j < i implies lex_lt(#[trigger] names(w)[j], d) by {
            assert(names(w)[j] == names(v)[j]);
        }
        lemma_rank_at(names(w), d, i);
        assert(insert_name(Seq::<Seq<char>>::empty(), e) =~= seq![e]);
    }
}

/// After adding employee `e` to department `d`, listing `d` shows `e`, once.
pub proof fn lemma_added_employee_listed_once(v: Seq<Roster>, e: Seq<char>, d: Seq<char>)
    requires
        well_formed(v),
    ensures
        employees_in(with_employee(v, e, d), d) is Some,
        ({
            let l = employees_in(with_employee(v, e, d), d)->0;
            &&& l.contains(e)
            &&& forall|i: int, j: int|
                0 <= i < l.len() && 0 <= j < l.len() && l[i] == e && l[j] == e ==> i == j
        }),
{
    lemma_with_employee(v, e, d);
    let w = with_employee(v, e, d);
    let l = employees_in(w, d)->0;
    if employees_in(v, d) is Some {
        assert(roster_of(v, d) == v[rank(names(v), d) as int].1);
    }
    lemma_insert_ascending(roster_of(v, d), e);
    lemma_lex_irreflexive(e);
    assert forall|i: int, j: int|
        0 <= i < l.len() && 0 <= j < l.len() && l[i] == e && l[j] == e implies i == j by {
        if i < j {
            assert(lex_lt(l[i], l[j]));
        } else if j < i {
            assert(lex_lt(l[j], l[i]));
        }
    }
}

/// Adding the same employee to the same department a second time changes
/// nothing, and the second add finds the employee already there.
pub proof fn lemma_add_twice_same_as_once(v: Seq<Roster>, e: Seq<char>, d: Seq<char>)
    requires
        well_formed(v),
    ensures
        has_employee(with_employee(v, e, d), e, d),
        with_employee(with_employee(v, e, d), e, d) == with_employee(v, e, d),
{
    lemma_added_employee_listed_once(v, e, d);
    let w = with_employee(v, e, d);
    let i = rank(names(w), d) as int;
    assert(w[i].1.contains(e));
    assert(with_employee(w, e, d) =~= w);
}

/// The directory after adding each of `es`, in order, to department `d`.
pub open spec fn with_employees(v: Seq<Roster>, es: Seq<Seq<char>>, d: Seq<char>) -> Seq<Roster>
    decreases es.len(),
{
    if es.len() == 0 {
        v
    } else {
        with_employee(with_employees(v, es.drop_last(), d), es.last(), d)
    }
}

/// However many employees are added to a department, and in whatever order,
/// the directory stays well formed and the department lists its employees in
/// ascending order.
pub proof fn lemma_adds_keep_ascending(v: Seq<Roster>, es: Seq<Seq<char>>, d: Seq<char>)
    requires
        well_formed(v),
    ensures
        well_formed(with_employees(v, es, d)),
        forall|l: Seq<Seq<char>>| employees_in(with_employees(v, es, d), d) == Some(l) ==> ascending(l),
    decreases es.len(),
{
    if es.len() > 0 {
        lemma_adds_keep_ascending(v, es.drop_last(), d);
        lemma_with_employee(with_employees(v, es.drop_last(), d), es.last(), d);
    }
    let w = with_employees(v, es, d);
    if employees_in(w, d) is Some {
        assert(w[rank(names(w), d) as int].1 == employees_in(w, d)->0);
    }
}

/// The outcome of adding an employee.
#[derive(Debug, Clone, Copy, PartialEq, Eq, Structural)]
pub enum AddResult {
    /// The employee was not in the department and now is.
    Added,
    /// The employee was in the department already; nothing changed.
    AlreadyPresent,
}

/// A department and its employees, in ascending order.
struct Department {
    name: String,
    employees: Vec<String>,
}

impl View for Department {
    type V = Roster;

    closed spec fn view(&self) -> Roster {
        (self.name@, self.employees.deep_view())
    }
}

/// All departments of a company, in ascending order of name.
pub struct Company {
    departments: Vec<Department>,
}

impl View for Company {
    type V = Seq<Roster>;

    closed spec fn view(&self) -> Seq<Roster> {
        self.departments@.map_values(|d: Department| d@)
    }
}

/// Where `key` stands or belongs among the ascending `list`.
fn slot_of(list: &Vec<String>, key: &Vec<char>) -> (i: usize)
    ensures
        i == rank(list.deep_view(), key@),
{
    let mut i: usize = 0;
    while i < list.len() && chars_less(&chars_of(list[i].as_str()), key)
        invariant
            i <= list.len(),
            forall|j: int| 0 <= j < i ==> lex_lt(#[trigger] list.deep_view()[j], key@),
        decreases list.len() - i,
    {
        i = i + 1;
    }
    proof {
        lemma_rank_at(list.deep_view(), key@, i as int);
    }
    i
}

/// Adds `name` to the ascending `list` in its place, unless it is there;
/// tells whether it was added.
fn insert_in_order(list: &mut Vec<String>, name: String) -> (added: bool)
    requires
        ascending(old(list).deep_view()),
    ensures
        final(list).deep_view() == insert_name(old(list).deep_view(), name@),
        added == !old(list).deep_view().contains(name@),
{
    let key = chars_of(name.as_str());
    let i = slot_of(list, &key);
    proof {
        lemma_rank_finds(list.deep_view(), name@);
        lemma_rank_bounds(list.deep_view(), name@);
    }
    if i < list.len() && list[i] == name {
        false
    } else {
        let ghost before = list.deep_view();
        list.insert(i, name);
        assert(list.deep_view() =~= before.insert(i as int, name@));
        true
    }
}

impl Company {
    /// A company with no departments.
    pub fn new() -> (r: Self)
        ensures
            r@ == Seq::<Roster>::empty(),
            well_formed(r@),
    {
        let r = Company { departments: Vec::new() };
        assert(r@ =~= Seq::<Roster>::empty());
        r
    }

    /// Where department `key` stands or belongs.
    fn department_slot(&self, key: &Vec<char>) -> (i: usize)
        ensures
            i == rank(names(self@), key@),
    {
        let mut i: usize = 0;
        while i < self.departments.len() && chars_less(
            &chars_of(self.departments[i].name.as_str()),
            key,
        )
            invariant
                i <= self.departments.len(),
                forall|j: int| 0 <= j < i ==> lex_lt(#[trigger] names(self@)[j], key@),
            decreases self.departments.len() - i,
        {
            i = i + 1;
        }
        proof {
            lemma_rank_at(names(self@), key@, i as int);
        }
        i
    }

    /// Adds employee `name` to `department`, creating the department if it
    /// has none yet. An employee already there is reported and not added twice.
    /// Any text is accepted as a name or a department, the empty text included.
    pub fn add_employee(&mut self, name: String, department: String) -> (r: AddResult)
        requires
            well_formed(old(self)@),
        ensures
            well_formed(final(self)@),
            final(self)@ == with_employee(old(self)@, name@, department@),
            r == AddResult::AlreadyPresent <==> has_employee(old(self)@, name@, department@),
    {
        let ghost v = self@;
        let ghost e = name@;
        let ghost d = department@;
        let key = chars_of(department.as_str());
        let i = self.department_slot(&key);
        proof {
            lemma_rank_bounds(names(v), d);
            lemma_rank_finds(names(v), d);
            lemma_with_employee(v, e, d);
        }
        if i < self.departments.len() && self.departments[i].name == department {
            let mut dep = self.departments.remove(i);
            assert(dep@ == v[i as int]);
            let added = insert_in_order(&mut dep.employees, name);
            self.departments.insert(i, dep);
            assert(self@ =~= v.update(i as int, (d, insert_name(v[i as int].1, e))));
            if added {
                AddResult::Added
            } else {
                AddResult::AlreadyPresent
            }
        } else {
            let mut employees: Vec<String> = Vec::new();
            employees.push(name);
            assert(employees.deep_view() =~= seq![e]);
            self.departments.insert(i, Department { name: department, employees });
            assert(self@ =~= v.insert(i as int, (d, seq![e])));
            AddResult::Added
        }
    }

    /// The employees of `department` in ascending order, or `None` where it
    /// has none.
    pub fn list_department(&self, department: &str) -> (r: Option<Vec<String>>)
        requires
            well_formed(self@),
        ensures
            match r {
                Some(l) => employees_in(self@, department@) == Some(l.deep_view()) && l.len() > 0,
                None => employees_in(self@, department@) is None,
            },
    {
        let key = chars_of(department);
        let i = self.department_slot(&key);
        let wanted = String::from_str(department);
        if i < self.departments.len() && self.departments[i].name == wanted {
            let l = self.departments[i].employees.clone();
            assert(l.deep_view() =~= self.departments[i as int].employees.deep_view());
            assert(self@[i as int].1.len() > 0);
            Some(l)
        } else {
            None
        }
    }

    /// Every department with its employees, departments in ascending order of
    /// name; empty where the company has no employee.
    pub fn list_all(&self) -> (r: Vec<(String, Vec<String>)>)
        requires
            well_formed(self@),
        ensures
            r.deep_view() == self@,
            ascending(names(r.deep_view())),
            forall|i: int| 0 <= i < r.len() ==> ascending((#[trigger] r.deep_view()[i]).1),
    {
        let mut r: Vec<(String, Vec<String>)> = Vec::new();
        let mut i: usize = 0;
        while i < self.departments.len()
            invariant
                i <= self.departments.len(),
                r.deep_view() == self@.take(i as int),
            decreases self.departments.len() - i,
        {
            let name = self.departments[i].name.clone();
            let employees = self.departments[i].employees.clone();
            assert(employees.deep_view() =~= self.departments[i as int].employees.deep_view());
            let ghost before = r.deep_view();
            r.push((name, employees));
            assert(r.deep_view() =~= before.push(self@[i as int]));
            assert(self@.take(i + 1) =~= self@.take(i as int).push(self@[i as int]));
            i = i + 1;
        }
        assert(self@.take(i as int) =~= self@);
        r
    }
}

} // verus!
