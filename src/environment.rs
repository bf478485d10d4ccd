use crate::assoc::{
    absent_from, assoc_map, lemma_assoc_absent, lemma_assoc_last, lemma_assoc_update,
};
use vstd::prelude::*;

verus! {

/// The variables of a running program and their values.
///
/// A variable is identified by its full name. Writing always overwrites, and a variable that
/// was never written reads as zero.
pub struct Environment {
    vars: Vec<(String, i64)>,
}

pub open spec fn name_value(p: (String, i64)) -> (Seq<char>, i64) {
    (p.0@, p.1)
}

impl View for Environment {
    type V = Map<Seq<char>, i64>;

    closed spec fn view(&self) -> Map<Seq<char>, i64> {
        assoc_map(self.vars@.map_values(|p: (String, i64)| name_value(p)))
    }
}

/// The value of `name` in `env`; zero where it was never written.
pub open spec fn value_of(env: Map<Seq<char>, i64>, name: Seq<char>) -> i64 {
    if env.contains_key(name) {
        env[name]
    } else {
        0
    }
}

impl Environment {
    /// An environment in which no variable has been written.
    pub fn new() -> (r: Environment)
        ensures
            r@ == Map::<Seq<char>, i64>::empty(),
    {
        let r = Environment { vars: Vec::new() };
        assert(r.vars@.map_values(|p: (String, i64)| name_value(p)) =~= Seq::empty());
        r
    }

    /// The position of the last pair named `name`, if any.
    fn find(&self, name: &String) -> (r: Option<usize>)
        ensures
            match r {
                Some(i) => i < self.vars@.len() && self.vars@[i as int].0@ == name@
                    && absent_from(
                    self.vars@.map_values(|p: (String, i64)| name_value(p)),
                    i + 1,
                    name@,
                ),
                None => absent_from(
                    self.vars@.map_values(|p: (String, i64)| name_value(p)),
                    0,
                    name@,
                ),
            },
    {
        let ghost s = self.vars@.map_values(|p: (String, i64)| name_value(p));
        let mut i: usize = self.vars.len();
        while i > 0
            invariant
                i <= self.vars@.len(),
                s == self.vars@.map_values(|p: (String, i64)| name_value(p)),
                absent_from(s, i as int, name@),
            decreases i,
        {
            if self.vars[i - 1].0 == *name {
                return Some(i - 1);
            }
            assert(s[i - 1] == name_value(self.vars@[i - 1]));
            i = i - 1;
        }
        None
    }

    /// The value of a variable; zero where it was never written.
    pub fn value(&self, name: &String) -> (r: i64)
        ensures
            r == value_of(self@, name@),
    {
        let ghost s = self.vars@.map_values(|p: (String, i64)| name_value(p));
        match self.find(name) {
            Some(i) => {
                proof {
                    lemma_assoc_last(s, i as int, name@);
                }
                self.vars[i].1
            },
            None => {
                proof {
                    lemma_assoc_absent(s, name@);
                }
                0
            },
        }
    }

    /// Gives a variable a value, replacing any earlier one.
    pub fn set_value(&mut self, name: &String, value: i64)
        ensures
            final(self)@ == old(self)@.insert(name@, value),
    {
        let ghost s = self.vars@.map_values(|p: (String, i64)| name_value(p));
        match self.find(name) {
            Some(i) => {
                proof {
                    lemma_assoc_update(s, i as int, name@, value);
                }
                let n = self.vars[i].0.clone();
                self.vars.set(i, (n, value));
                assert(self.vars@.map_values(|p: (String, i64)| name_value(p)) =~= s.update(
                    i as int,
                    (name@, value),
                ));
            },
            None => {
                self.vars.push((name.clone(), value));
                assert(self.vars@.map_values(|p: (String, i64)| name_value(p)).drop_last() =~= s);
            },
        }
    }
}

} // verus!
