use crate::split::texts;
use vstd::arithmetic::div_mod::lemma_fundamental_div_mod_converse;
use vstd::prelude::*;

verus! {

/// One unit of work: a payload pair and its place in the enumeration.
#[derive(Clone, Debug)]
pub struct Task {
    /// The place of the pair in the enumeration, from 0.
    pub position: usize,
    pub primary: String,
    pub secondary: Option<String>,
}

/// A task as plain values.
pub struct TaskView {
    pub position: nat,
    pub primary: Seq<char>,
    pub secondary: Option<Seq<char>>,
}

impl View for Task {
    type V = TaskView;

    open spec fn view(&self) -> TaskView {
        TaskView {
            position: self.position as nat,
            primary: self.primary@,
            secondary: match self.secondary {
                Some(s) => Some(s@),
                None => None,
            },
        }
    }
}

/// What each task of a list is, in the list's order.
pub open spec fn task_views(list: Seq<Task>) -> Seq<TaskView> {
    Seq::new(list.len(), |i: int| list[i]@)
}

/// How many requests a run makes: one per entry of the first wordlist, times
/// the length of the second where there is one.
pub open spec fn task_count(first: nat, second: Option<nat>) -> nat {
    match second {
        Some(m) => first * m,
        None => first,
    }
}

/// The enumeration of a run. With two wordlists it is their cross product,
/// the second running fastest; with one, each entry alone.
pub open spec fn planned(first: Seq<Seq<char>>, second: Option<Seq<Seq<char>>>) -> Seq<TaskView> {
    match second {
        Some(s) => Seq::new(
            first.len() * s.len(),
            |k: int|
                TaskView {
                    position: k as nat,
                    primary: first[k / (s.len() as int)],
                    secondary: Some(s[k % (s.len() as int)]),
                },
        ),
        None => Seq::new(
            first.len(),
            |k: int| TaskView { position: k as nat, primary: first[k], secondary: None },
        ),
    }
}

/// The second wordlist as plain values.
pub open spec fn second_texts(second: Option<&Vec<String>>) -> Option<Seq<Seq<char>>> {
    match second {
        Some(s) => Some(texts(s@)),
        None => None,
    }
}

/// How long the second wordlist is, where there is one.
pub open spec fn second_len(second: Option<&Vec<String>>) -> Option<nat> {
    match second {
        Some(s) => Some(s@.len()),
        None => None,
    }
}

/// A place in the cross product belongs to one entry of each list.
proof fn lemma_place(i: int, j: int, n: int, m: int)
    requires
        0 <= i < n,
        0 <= j < m,
    ensures
        0 <= i * m + j < n * m,
        (i * m + j) / m == i,
        (i * m + j) % m == j,
        (i + 1) * m == i * m + m,
{
    assert(0 <= i * m && (i + 1) * m <= n * m && (i + 1) * m == i * m + m) by (nonlinear_arith)
        requires
            0 <= i < n,
            0 < m,
    ;
    lemma_fundamental_div_mod_converse(i * m + j, m, i, j);
}

/// Every task of the enumeration, in order.
pub fn build_tasks(first: &Vec<String>, second: Option<&Vec<String>>) -> (tasks: Vec<Task>)
    ensures
        task_views(tasks@) == planned(texts(first@), second_texts(second)),
        tasks@.len() == task_count(first@.len(), second_len(second)),
{
    let mut tasks: Vec<Task> = Vec::new();
    let n = first.len();
    match second {
        None => {
            let mut i: usize = 0;
            while i < n
                invariant
                    n == first.len(),
                    i <= n,
                    tasks@.len() == i,
                    forall|k: int|
                        0 <= k < i ==> (#[trigger] tasks@[k])@ == planned(texts(first@), None)[k],
                decreases n - i,
            {
                tasks.push(Task { position: i, primary: first[i].clone(), secondary: None });
                i += 1;
            }
            assert(task_views(tasks@) =~= planned(texts(first@), None));
        },
        Some(other) => {
            let m = other.len();
            let ghost plan = planned(texts(first@), Some(texts(other@)));
            let mut i: usize = 0;
            assert(0 * m == 0) by (nonlinear_arith);
            while i < n
                invariant
                    n == first.len(),
                    m == other.len(),
                    plan == planned(texts(first@), Some(texts(other@))),
                    i <= n,
                    tasks@.len() == i * m,
                    forall|k: int| 0 <= k < tasks@.len() ==> (#[trigger] tasks@[k])@ == plan[k],
                decreases n - i,
            {
                let mut j: usize = 0;
                while j < m
                    invariant
                        n == first.len(),
                        m == other.len(),
                        plan == planned(texts(first@), Some(texts(other@))),
                        i < n,
                        j <= m,
                        tasks@.len() == i * m + j,
                        forall|k: int| 0 <= k < tasks@.len() ==> (#[trigger] tasks@[k])@ == plan[k],
                    decreases m - j,
                {
                    proof {
                        lemma_place(i as int, j as int, n as int, m as int);
                    }
                    let position = tasks.len();
                    tasks.push(
                        Task {
                            position,
                            primary: first[i].clone(),
                            secondary: Some(other[j].clone()),
                        },
                    );
                    j += 1;
                }
                proof {
                    if m > 0 {
                        lemma_place(i as int, 0, n as int, m as int);
                    } else {
                        assert(i * m == 0 && (i + 1) * m == 0) by (nonlinear_arith)
                            requires
                                m == 0,
                        ;
                    }
                }
                i += 1;
            }
            assert(task_views(tasks@) =~= plan);
        },
    }
    tasks
}

/// How many requests a run makes.
pub fn total_requests(first: usize, second: Option<usize>) -> (total: usize)
    requires
        task_count(first as nat, match second {
            Some(m) => Some(m as nat),
            None => None,
        }) <= usize::MAX,
    ensures
        total == task_count(first as nat, match second {
            Some(m) => Some(m as nat),
            None => None,
        }),
{
    match second {
        Some(m) => first * m,
        None => first,
    }
}

} // verus!
