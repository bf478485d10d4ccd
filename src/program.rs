use crate::ast::{Line, Statement};
use crate::error::BasicError;
use crate::lexeme::{line_number_of, parse_line_number};
use vstd::prelude::*;

verus! {

/// A line of the program index: its statements, and the number of the line that follows it.
pub struct CompiledLine<'a> {
    pub statements: &'a Vec<Statement>,
    pub next_line: Option<u16>,
}

/// A line of the index as the contracts see it: number, statements, number of the next line.
pub type IndexEntry = (u16, Seq<Statement>, Option<u16>);

/// The lines of a program, in ascending order of their numbers, each chained to the next.
pub struct BasicLines<'a> {
    lines: Vec<(u16, CompiledLine<'a>)>,
}

impl<'a> BasicLines<'a> {
    /// The numbers of the index strictly ascend.
    #[verifier::type_invariant]
    closed spec fn ascending_numbers(&self) -> bool {
        ascending(self@)
    }
}

impl<'a> View for BasicLines<'a> {
    type V = Seq<IndexEntry>;

    closed spec fn view(&self) -> Seq<IndexEntry> {
        self.lines@.map_values(|e: (u16, CompiledLine<'a>)| (e.0, e.1.statements@, e.1.next_line))
    }
}

/// Where each line number of `lines` is declared, or the first failure met when reading them
/// in order: a malformed or oversized number, or a number declared a second time.
pub open spec fn declarations(lines: Seq<Line>) -> Result<Map<u16, int>, BasicError>
    decreases lines.len(),
{
    if lines.len() == 0 {
        Ok(Map::empty())
    } else {
        match declarations(lines.drop_last()) {
            Err(e) => Err(e),
            Ok(m) => match line_number_of(lines.last().number@) {
                Err(e) => Err(e),
                Ok(k) => if m.contains_key(k) {
                    Err(BasicError::LineNumberDefinedTwice(k))
                } else {
                    Ok(m.insert(k, lines.len() - 1))
                },
            },
        }
    }
}

/// The numbers of `index` strictly ascend.
pub open spec fn ascending(index: Seq<IndexEntry>) -> bool {
    forall|i: int, j: int| 0 <= i < j < index.len() ==> index[i].0 < index[j].0
}

/// Each entry's next line is the number of the entry after it; the last has none.
pub open spec fn chained(index: Seq<IndexEntry>) -> bool {
    forall|i: int|
        0 <= i < index.len() ==> (#[trigger] index[i]).2 == if i + 1 < index.len() {
            Some(index[i + 1].0)
        } else {
            None
        }
}

/// `index` holds the lines declared in `lines`, at the places `m` gives, in ascending order of
/// their numbers, each chained to the next.
pub open spec fn indexes(index: Seq<IndexEntry>, lines: Seq<Line>, m: Map<u16, int>) -> bool {
    &&& ascending(index)
    &&& chained(index)
    &&& forall|k: u16| m.contains_key(k) <==> exists|i: int| 0 <= i < index.len() && #[trigger] index[i].0 == k
    &&& forall|i: int|
        0 <= i < index.len() ==> m.contains_key((#[trigger] index[i]).0) && 0 <= m[index[i].0] < lines.len()
            && index[i].1 == lines[m[index[i].0]].statements@
}

/// The position in `index` of the line numbered `n`, if there is one.
pub open spec fn position_of(index: Seq<IndexEntry>, n: u16) -> Option<int> {
    if exists|i: int| 0 <= i < index.len() && #[trigger] index[i].0 == n {
        Some(choose|i: int| 0 <= i < index.len() && #[trigger] index[i].0 == n)
    } else {
        None
    }
}

/// The pairs of `order` are exactly the declarations of `m`, in ascending order of number.
spec fn sorted_declarations(order: Seq<(u16, usize)>, m: Map<u16, int>) -> bool {
    &&& forall|i: int, j: int| 0 <= i < j < order.len() ==> order[i].0 < order[j].0
    &&& forall|k: u16| m.contains_key(k) <==> exists|i: int| 0 <= i < order.len() && #[trigger] order[i].0 == k
    &&& forall|i: int| 0 <= i < order.len() ==> m.contains_key((#[trigger] order[i]).0) && m[order[i].0] == order[i].1 as int
}

impl<'a> BasicLines<'a> {
    /// Builds the index of a program.
    pub fn pre_process_lines(lines: &'a Vec<Line>) -> (r: Result<BasicLines<'a>, BasicError>)
        ensures
            match declarations(lines@) {
                Ok(m) => r is Ok && indexes(r->Ok_0@, lines@, m),
                Err(e) => r == Err::<BasicLines<'a>, BasicError>(e),
            },
    {
        let mut order: Vec<(u16, usize)> = Vec::new();
        let ghost mut m: Map<u16, int> = Map::empty();
        let mut i: usize = 0;
        assert(lines@.take(0) =~= Seq::<Line>::empty());
        while i < lines.len()
            invariant
                i <= lines@.len(),
                declarations(lines@.take(i as int)) == Ok::<Map<u16, int>, BasicError>(m),
                sorted_declarations(order@, m),
                forall|k: u16| #[trigger] m.contains_key(k) ==> 0 <= m[k] < i,
            decreases lines@.len() - i,
        {
            assert(lines@.take(i + 1).drop_last() =~= lines@.take(i as int));
            assert(lines@.take(i + 1).last() == lines@[i as int]);
            let k = match parse_line_number(lines[i].number.as_str()) {
                Ok(k) => k,
                Err(e) => {
                    proof {
                        lemma_declarations_fail(lines@, i as int, e);
                    }
                    return Err(e);
                },
            };
            let mut p: usize = 0;
            while p < order.len() && order[p].0 < k
                invariant
                    p <= order@.len(),
                    forall|j: int| 0 <= j < p ==> (#[trigger] order@[j]).0 < k,
                decreases order@.len() - p,
            {
                p = p + 1;
            }
            if p < order.len() && order[p].0 == k {
                proof {
                    assert(m.contains_key(k));
                    lemma_declarations_fail(lines@, i as int, BasicError::LineNumberDefinedTwice(k));
                }
                return Err(BasicError::LineNumberDefinedTwice(k));
            }
            proof {
                if m.contains_key(k) {
                    let j = choose|j: int| 0 <= j < order@.len() && #[trigger] order@[j].0 == k;
                    if j >= p {
                        assert(order@[p as int].0 <= order@[j].0);
                    }
                }
            }
            let ghost old_order = order@;
            order.insert(p, (k, i));
            proof {
                let m2 = m.insert(k, i as int);
                assert forall|k2: u16| m2.contains_key(k2) implies exists|j: int| 0 <= j < order@.len() && #[trigger] order@[j].0 == k2 by {
                    if k2 == k {
                        assert(order@[p as int].0 == k);
                    } else {
                        let j = choose|j: int| 0 <= j < old_order.len() && #[trigger] old_order[j].0 == k2;
                        if j < p {
                            assert(order@[j].0 == k2);
                        } else {
                            assert(order@[j + 1].0 == k2);
                        }
                    }
                }
                assert forall|a: int, b: int| 0 <= a < b < order@.len() implies order@[a].0 < order@[b].0 by {
                    if b < p {
                    } else if b == p {
                        assert(old_order[a].0 < k);
                    } else if a < p {
                        assert(old_order[a].0 < k);
                    } else if a == p {
                        assert(old_order[b - 1].0 >= old_order[p as int].0);
                    } else {
                    }
                }
                assert(sorted_declarations(order@, m2));
                m = m2;
            }
            i = i + 1;
        }
        assert(lines@.take(lines@.len() as int) =~= lines@);
        let n = order.len();
        let mut index: Vec<(u16, CompiledLine<'a>)> = Vec::new();
        let mut j: usize = 0;
        while j < n
            invariant
                n == order@.len(),
                j <= n,
                index@.len() == j,
                sorted_declarations(order@, m),
                forall|k: u16| #[trigger] m.contains_key(k) ==> 0 <= m[k] < lines@.len(),
                forall|t: int|
                    0 <= t < j ==> (#[trigger] index@[t]).0 == order@[t].0
                        && index@[t].1.statements@ == lines@[order@[t].1 as int].statements@
                        && index@[t].1.next_line == if t + 1 < n {
                        Some(order@[t + 1].0)
                    } else {
                        None
                    },
            decreases n - j,
        {
            let (k, src) = order[j];
            assert(m.contains_key(k));
            let next_line = if j + 1 < n {
                Some(order[j + 1].0)
            } else {
                None
            };
            index.push((k, CompiledLine { statements: &lines[src].statements, next_line }));
            j = j + 1;
        }
        assert(ascending(index@.map_values(
            |e: (u16, CompiledLine<'a>)| (e.0, e.1.statements@, e.1.next_line),
        )));
        let r = BasicLines { lines: index };
        assert forall|k: u16| m.contains_key(k) implies exists|t: int| 0 <= t < r@.len() && #[trigger] r@[t].0 == k by {
            let t = choose|t: int| 0 <= t < order@.len() && #[trigger] order@[t].0 == k;
            assert(r@[t].0 == k);
        }
        Ok(r)
    }

    /// The line numbered `n`, if the program declares it.
    pub fn get(&self, n: u16) -> (r: Option<&CompiledLine<'a>>)
        ensures
            ascending(self@),
            match position_of(self@, n) {
                Some(i) => r is Some && r->Some_0.statements@ == self@[i].1
                    && r->Some_0.next_line == self@[i].2,
                None => r is None,
            },
    {
        proof {
            use_type_invariant(self);
        }
        let mut i: usize = 0;
        while i < self.lines.len()
            invariant
                i <= self@.len(),
                ascending(self@),
                self@.len() == self.lines@.len(),
                forall|t: int| 0 <= t < i ==> (#[trigger] self@[t]).0 != n,
            decreases self@.len() - i,
        {
            assert(self@[i as int] == (
                self.lines@[i as int].0,
                self.lines@[i as int].1.statements@,
                self.lines@[i as int].1.next_line,
            ));
            if self.lines[i].0 == n {
                assert(self@[i as int].0 == n);
                let ghost c = choose|t: int| 0 <= t < self@.len() && #[trigger] self@[t].0 == n;
                assert(c == i) by {
                    if c < i {
                    } else if c > i {
                        assert(self@[i as int].0 < self@[c].0);
                    }
                };
                return Some(&self.lines[i].1);
            }
            i = i + 1;
        }
        None
    }

    /// The number of the first line, if the program has any.
    pub fn first_line(&self) -> (r: Option<u16>)
        ensures
            r == if self@.len() > 0 {
                Some(self@[0].0)
            } else {
                None::<u16>
            },
    {
        if self.lines.len() > 0 {
            Some(self.lines[0].0)
        } else {
            None
        }
    }
}

/// The line number that line `i` of `lines` declares.
pub open spec fn number_at(lines: Seq<Line>, i: int) -> Result<u16, BasicError> {
    line_number_of(lines[i].number@)
}

/// Some line of `lines` declares the number `k`.
pub open spec fn declares(lines: Seq<Line>, k: u16) -> bool {
    exists|j: int| 0 <= j < lines.len() && #[trigger] number_at(lines, j) == Ok::<u16, BasicError>(k)
}

/// Some entry of `index` has the number `k`.
pub open spec fn holds_number(index: Seq<IndexEntry>, k: u16) -> bool {
    exists|i: int| 0 <= i < index.len() && #[trigger] index[i].0 == k
}

/// Every line number of `lines` is well formed and within bounds.
pub open spec fn numbers_valid(lines: Seq<Line>) -> bool {
    forall|i: int| 0 <= i < lines.len() ==> (#[trigger] number_at(lines, i)) is Ok
}

/// No two lines of `lines` declare the same number.
pub open spec fn numbers_distinct(lines: Seq<Line>) -> bool {
    forall|i: int, j: int|
        0 <= i < j < lines.len() ==> #[trigger] number_at(lines, i) != #[trigger] number_at(lines, j)
}

/// Where every line number is valid, reading the declarations either succeeds with exactly the
/// declared numbers, all distinct, or reports a number declared twice, which some two lines share.
proof fn lemma_declarations_valid(lines: Seq<Line>)
    requires
        numbers_valid(lines),
    ensures
        match declarations(lines) {
            Ok(m) => numbers_distinct(lines) && forall|k: u16|
                m.contains_key(k) <==> exists|i: int|
                    0 <= i < lines.len() && #[trigger] number_at(lines, i) == Ok::<u16, BasicError>(k),
            Err(e) => e is LineNumberDefinedTwice && !numbers_distinct(lines),
        },
    decreases lines.len(),
{
    if lines.len() == 0 {
        return;
    }
    let s = lines.drop_last();
    let n = lines.len() - 1;
    assert forall|i: int| 0 <= i < s.len() implies #[trigger] number_at(s, i) == number_at(lines, i) by {
        assert(s[i] == lines[i]);
    }
    assert forall|i: int| 0 <= i < s.len() implies (#[trigger] number_at(s, i)) is Ok by {
        assert(number_at(s, i) == number_at(lines, i));
    }
    lemma_declarations_valid(s);
    assert(number_at(lines, n) is Ok);
    assert(lines.last() == lines[n]);
    match declarations(s) {
        Err(e) => {
            let (i, j) = choose|i: int, j: int|
                0 <= i < j < s.len() && #[trigger] number_at(s, i) == #[trigger] number_at(s, j);
            assert(number_at(lines, i) == number_at(lines, j));
        },
        Ok(m) => {
            let k = number_at(lines, n)->Ok_0;
            if m.contains_key(k) {
                let i = choose|i: int|
                    0 <= i < s.len() && #[trigger] number_at(s, i) == Ok::<u16, BasicError>(k);
                assert(number_at(lines, i) == number_at(lines, n));
            } else {
                let m2 = m.insert(k, n);
                assert forall|k2: u16| m2.contains_key(k2) <==> exists|i: int|
                    0 <= i < lines.len() && #[trigger] number_at(lines, i) == Ok::<u16, BasicError>(k2) by {
                    if m2.contains_key(k2) && k2 != k {
                        let i = choose|i: int|
                            0 <= i < s.len() && #[trigger] number_at(s, i) == Ok::<u16, BasicError>(k2);
                        assert(number_at(lines, i) == Ok::<u16, BasicError>(k2));
                    }
                    if exists|i: int| 0 <= i < lines.len() && #[trigger] number_at(lines, i) == Ok::<u16, BasicError>(k2) {
                        let i = choose|i: int| 0 <= i < lines.len() && #[trigger] number_at(lines, i) == Ok::<u16, BasicError>(k2);
                        if i < n {
                            assert(number_at(s, i) == Ok::<u16, BasicError>(k2));
                        }
                    }
                }
                assert forall|i: int, j: int| 0 <= i < j < lines.len() implies #[trigger] number_at(lines, i) != #[trigger] number_at(lines, j) by {
                    if j == n {
                        let ki = number_at(s, i)->Ok_0;
                        assert(number_at(s, i) == Ok::<u16, BasicError>(ki));
                        assert(m.contains_key(ki));
                    } else {
                        assert(number_at(s, i) != number_at(s, j));
                    }
                }
            }
        },
    }
}

/// A program whose line numbers are valid and distinct has an index: its lines in ascending
/// order of their numbers, each chained to the numerically next, the last to none.
pub proof fn lemma_distinct_numbers_index(lines: Seq<Line>)
    requires
        numbers_valid(lines),
        numbers_distinct(lines),
    ensures
        declarations(lines) is Ok,
        forall|index: Seq<IndexEntry>|
            #[trigger] indexes(index, lines, declarations(lines)->Ok_0) ==> ascending(index) && chained(index)
                && forall|k: u16| #[trigger] holds_number(index, k) <==> declares(lines, k),
{
    lemma_declarations_valid(lines);
    let m = declarations(lines)->Ok_0;
    assert forall|index: Seq<IndexEntry>| #[trigger] indexes(index, lines, m) implies ascending(index)
        && chained(index) && forall|k: u16| #[trigger] holds_number(index, k) <==> declares(lines, k) by {
        assert forall|k: u16| #[trigger] holds_number(index, k) <==> declares(lines, k) by {
            assert(m.contains_key(k) <==> holds_number(index, k));
            assert(m.contains_key(k) <==> declares(lines, k));
        }
    }
}

/// A program with valid line numbers, two of which are equal, is refused for a number
/// defined twice, whatever the order of its lines.
pub proof fn lemma_duplicate_number_refused(lines: Seq<Line>, i: int, j: int)
    requires
        numbers_valid(lines),
        0 <= i < lines.len(),
        0 <= j < lines.len(),
        i != j,
        number_at(lines, i) == number_at(lines, j),
    ensures
        declarations(lines) is Err,
        declarations(lines)->Err_0 is LineNumberDefinedTwice,
{
    lemma_declarations_valid(lines);
    if i > j {
        assert(number_at(lines, j) == number_at(lines, i));
    }
}

/// Below position `i`, two indexes of the same program hold the same numbers.
proof fn lemma_numbers_agree(
    a: Seq<IndexEntry>,
    b: Seq<IndexEntry>,
    lines: Seq<Line>,
    m: Map<u16, int>,
    i: int,
)
    requires
        indexes(a, lines, m),
        indexes(b, lines, m),
        0 <= i <= a.len(),
        i <= b.len(),
    ensures
        forall|j: int| 0 <= j < i ==> a[j].0 == b[j].0,
    decreases i,
{
    if i > 0 {
        let x = i - 1;
        lemma_numbers_agree(a, b, lines, m, x);
        if a[x].0 < b[x].0 {
            lemma_number_missing(a, b, lines, m, x);
        } else if b[x].0 < a[x].0 {
            lemma_number_missing(b, a, lines, m, x);
        }
    }
}

/// Where two indexes of one program agree below `x`, the number at `x` of the first is no
/// smaller than that of the second.
proof fn lemma_number_missing(
    a: Seq<IndexEntry>,
    b: Seq<IndexEntry>,
    lines: Seq<Line>,
    m: Map<u16, int>,
    x: int,
)
    requires
        indexes(a, lines, m),
        indexes(b, lines, m),
        0 <= x < a.len(),
        x < b.len(),
        forall|j: int| 0 <= j < x ==> a[j].0 == b[j].0,
    ensures
        a[x].0 >= b[x].0,
{
    let k = a[x].0;
    assert(m.contains_key(a[x].0));
    let j = choose|j: int| 0 <= j < b.len() && #[trigger] b[j].0 == k;
    if j < x {
        assert(a[j].0 == b[j].0);
        assert(a[j].0 < a[x].0);
    } else if j > x {
        assert(b[x].0 < b[j].0);
    }
}

/// A program has one index only.
pub proof fn lemma_index_unique(a: Seq<IndexEntry>, b: Seq<IndexEntry>, lines: Seq<Line>, m: Map<u16, int>)
    requires
        indexes(a, lines, m),
        indexes(b, lines, m),
    ensures
        a == b,
{
    if a.len() < b.len() {
        lemma_numbers_agree(a, b, lines, m, a.len() as int);
        lemma_longer(a, b, lines, m);
    } else if b.len() < a.len() {
        lemma_numbers_agree(b, a, lines, m, b.len() as int);
        lemma_longer(b, a, lines, m);
    } else {
        lemma_numbers_agree(a, b, lines, m, a.len() as int);
        assert forall|i: int| 0 <= i < a.len() implies a[i] == b[i] by {
            assert(a[i].0 == b[i].0);
            if i + 1 < a.len() {
                assert(a[i + 1].0 == b[i + 1].0);
            }
        }
        assert(a =~= b);
    }
}

/// An index of a program cannot extend another index of it.
proof fn lemma_longer(a: Seq<IndexEntry>, b: Seq<IndexEntry>, lines: Seq<Line>, m: Map<u16, int>)
    requires
        indexes(a, lines, m),
        indexes(b, lines, m),
        a.len() <= b.len(),
        forall|j: int| 0 <= j < a.len() ==> a[j].0 == b[j].0,
    ensures
        a.len() == b.len(),
{
    if a.len() == b.len() {
        return;
    }
    let x = a.len() as int;
    let k = b[x].0;
    assert(m.contains_key(b[x].0));
    let j = choose|j: int| 0 <= j < a.len() && #[trigger] a[j].0 == k;
    assert(a[j].0 == b[j].0);
    assert(b[j].0 < b[x].0);
}

/// A failure on line `i`, after all earlier lines were read, is the failure of the program.
proof fn lemma_declarations_fail(lines: Seq<Line>, i: int, e: BasicError)
    requires
        0 <= i < lines.len(),
        declarations(lines.take(i + 1)) == Err::<Map<u16, int>, BasicError>(e),
    ensures
        declarations(lines) == Err::<Map<u16, int>, BasicError>(e),
    decreases lines.len(),
{
    if i + 1 < lines.len() {
        assert(lines.drop_last().take(i + 1) =~= lines.take(i + 1));
        lemma_declarations_fail(lines.drop_last(), i, e);
    } else {
        assert(lines.take(i + 1) =~= lines);
    }
}

} // verus!
