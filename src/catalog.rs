//! The relational catalog that a graph is extracted from: tables, their
//! columns, primary keys, foreign keys and inheritance links, with the walks
//! over it that decide which tables yield nodes and which ancestors they have.
use vstd::prelude::*;
use vstd::string::*;

verus! {

/// The normalized type of a column, as far as keys are concerned.
#[derive(Debug, Clone, Copy, PartialEq, Eq, Structural)]
pub enum ColumnType {
    /// `TEXT`.
    Text,
    /// `VARCHAR`.
    Varchar,
    /// `INT`: a 32-bit integer.
    Int,
    /// `UUID`.
    Uuid,
    /// Any other type.
    Other,
}

/// A column of a table.
#[derive(Debug)]
pub struct Column {
    /// The column's name.
    pub name: String,
    /// The column's normalized type.
    pub data_type: ColumnType,
}

/// A foreign key of a table.
#[derive(Debug)]
pub struct ForeignKey {
    /// The positions, among the host table's columns, of the referencing columns.
    pub host_columns: Vec<usize>,
    /// The position of the referenced table in the catalog.
    pub referenced_table: usize,
    /// The positions, among the referenced table's columns, of the referenced columns.
    pub referenced_columns: Vec<usize>,
}

/// A table of the catalog.
#[derive(Debug)]
pub struct Table {
    /// The schema that qualifies the table's name, if any.
    pub schema: Option<String>,
    /// The table's name.
    pub name: String,
    /// The table's columns.
    pub columns: Vec<Column>,
    /// The positions of the primary key's columns, in key order; empty when
    /// the table has no primary key.
    pub primary_key: Vec<usize>,
    /// The table's foreign keys.
    pub foreign_keys: Vec<ForeignKey>,
    /// The position of the table that this one extends by inheritance, if any.
    pub extends: Option<usize>,
}

/// A catalog: its tables, in the order in which they are enumerated. A
/// table's position is its identity and its node class ID.
#[derive(Debug)]
pub struct Catalog {
    /// The tables.
    pub tables: Vec<Table>,
}

/// Every column position in `cols` names a column of a table with `n` columns.
pub open spec fn columns_in(cols: Seq<usize>, n: int) -> bool {
    forall|i: int| 0 <= i < cols.len() ==> #[trigger] cols[i] < n
}

impl Catalog {
    /// The number of tables.
    pub open spec fn len(&self) -> int {
        self.tables@.len() as int
    }

    /// The table at position `t`.
    pub open spec fn table(&self, t: int) -> Table {
        self.tables@[t]
    }

    /// The foreign key `f` of table `t` is well formed.
    pub open spec fn foreign_key_wf(&self, t: int, f: int) -> bool {
        let fk = self.table(t).foreign_keys@[f];
        &&& columns_in(fk.host_columns@, self.table(t).columns@.len() as int)
        &&& fk.referenced_table < self.len()
        &&& columns_in(
            fk.referenced_columns@,
            self.table(fk.referenced_table as int).columns@.len() as int,
        )
    }

    /// Table `t` is well formed: its positions name columns and tables that exist.
    pub open spec fn table_wf(&self, t: int) -> bool {
        let tb = self.table(t);
        &&& columns_in(tb.primary_key@, tb.columns@.len() as int)
        &&& forall|f: int| 0 <= f < tb.foreign_keys@.len() ==> #[trigger] self.foreign_key_wf(t, f)
        &&& tb.extends matches Some(p) ==> p < self.len()
    }

    /// Every position in the catalog names a column or a table that exists.
    pub open spec fn wf(&self) -> bool {
        forall|t: int| 0 <= t < self.len() ==> #[trigger] self.table_wf(t)
    }

    /// Some table of the catalog extends table `t`.
    pub open spec fn extended(&self, t: int) -> bool {
        exists|u: int| 0 <= u < self.len() && #[trigger] self.table(u).extends == Some(t as usize)
    }

    /// The chain of tables that `t` extends, nearest first, followed for at
    /// most `fuel` links.
    pub open spec fn ancestor_chain(&self, t: int, fuel: nat) -> Seq<usize>
        decreases fuel,
    {
        if fuel == 0 || t < 0 || t >= self.len() {
            Seq::empty()
        } else {
            match self.table(t).extends {
                Some(p) => seq![p].add(self.ancestor_chain(p as int, (fuel - 1) as nat)),
                None => Seq::empty(),
            }
        }
    }

    /// The tables that `t` extends, nearest first. A chain that comes back on
    /// itself is cut after as many links as there are tables.
    pub open spec fn ancestors_of(&self, t: int) -> Seq<usize> {
        self.ancestor_chain(t, self.tables@.len())
    }

    /// The tables that yield nodes, in catalog order: those that no table extends.
    pub open spec fn leaves_from(&self, start: int) -> Seq<usize>
        decreases self.len() - start,
    {
        if start < 0 || start >= self.len() {
            Seq::empty()
        } else if self.extended(start) {
            self.leaves_from(start + 1)
        } else {
            seq![start as usize].add(self.leaves_from(start + 1))
        }
    }

    /// The foreign key `f` of table `t` references exactly the referenced
    /// table's primary key columns, in key order.
    pub open spec fn targets_primary_key(&self, t: int, f: int) -> bool {
        let fk = self.table(t).foreign_keys@[f];
        fk.referenced_columns@ == self.table(fk.referenced_table as int).primary_key@
    }

    /// The width of table `t`'s primary key.
    pub open spec fn key_width(&self, t: int) -> int {
        self.table(t).primary_key@.len() as int
    }

    /// The name of table `t`, qualified by its schema if it has one.
    pub open spec fn qualified(&self, t: int) -> Seq<char> {
        match self.table(t).schema {
            Some(s) => s@ + "."@ + self.table(t).name@,
            None => self.table(t).name@,
        }
    }

    /// The names of the columns `cols[i..]` of table `t`, each after `", "`.
    pub open spec fn column_names_from(&self, t: int, cols: Seq<usize>, i: int) -> Seq<char>
        decreases cols.len() - i,
    {
        if i < 0 || i >= cols.len() {
            Seq::empty()
        } else {
            ", "@ + self.table(t).columns@[cols[i] as int].name@ + self.column_names_from(
                t,
                cols,
                i + 1,
            )
        }
    }

    /// The names of the columns `cols` of table `t`, joined by `", "`.
    pub open spec fn column_names(&self, t: int, cols: Seq<usize>) -> Seq<char> {
        if cols.len() == 0 {
            Seq::empty()
        } else {
            self.table(t).columns@[cols[0] as int].name@ + self.column_names_from(t, cols, 1)
        }
    }

    /// The name of table `t`, qualified by its schema if it has one.
    pub fn qualified_name(&self, t: usize) -> (r: String)
        requires
            t < self.len(),
        ensures
            r@ == self.qualified(t as int),
    {
        let tb = &self.tables[t];
        match &tb.schema {
            Some(s) => {
                let mut out = s.clone();
                out.append(".");
                out.append(tb.name.as_str());
                out
            },
            None => tb.name.clone(),
        }
    }

    /// The names of the columns `cols` of table `t`, joined by `", "`.
    pub fn join_column_names(&self, t: usize, cols: &Vec<usize>) -> (r: String)
        requires
            t < self.len(),
            columns_in(cols@, self.table(t as int).columns@.len() as int),
        ensures
            r@ == self.column_names(t as int, cols@),
    {
        let tb = &self.tables[t];
        if cols.len() == 0 {
            return String::new();
        }
        let mut out = tb.columns[cols[0]].name.clone();
        let mut i: usize = 1;
        while i < cols.len()
            invariant
                t < self.len(),
                *tb == self.table(t as int),
                columns_in(cols@, tb.columns@.len() as int),
                1 <= i <= cols@.len(),
                out@ + self.column_names_from(t as int, cols@, i as int) == self.column_names(
                    t as int,
                    cols@,
                ),
            decreases cols@.len() - i,
        {
            let name = tb.columns[cols[i]].name.as_str();
            proof {
                assert(out@ + ", "@ + name@ + self.column_names_from(t as int, cols@, i + 1)
                    =~= out@ + self.column_names_from(t as int, cols@, i as int));
            }
            out.append(", ");
            out.append(name);
            i = i + 1;
        }
        proof {
            assert(out@ + self.column_names_from(t as int, cols@, i as int) =~= out@);
        }
        out
    }

    /// Checks that every position in the catalog names a column or a table
    /// that exists.
    pub fn is_well_formed(&self) -> (r: bool)
        ensures
            r == self.wf(),
    {
        let n = self.tables.len();
        let mut t: usize = 0;
        while t < n
            invariant
                n == self.len(),
                t <= n,
                forall|u: int| 0 <= u < t ==> #[trigger] self.table_wf(u),
            decreases n - t,
        {
            if !self.table_is_well_formed(t) {
                return false;
            }
            t = t + 1;
        }
        true
    }

    fn table_is_well_formed(&self, t: usize) -> (r: bool)
        requires
            t < self.len(),
        ensures
            r == self.table_wf(t as int),
    {
        let tb = &self.tables[t];
        if !all_below(&tb.primary_key, tb.columns.len()) {
            return false;
        }
        match tb.extends {
            Some(p) => {
                if p >= self.tables.len() {
                    return false;
                }
            },
            None => {},
        }
        let mut f: usize = 0;
        while f < tb.foreign_keys.len()
            invariant
                t < self.len(),
                *tb == self.table(t as int),
                columns_in(tb.primary_key@, tb.columns@.len() as int),
                tb.extends matches Some(p) ==> p < self.len(),
                f <= tb.foreign_keys@.len(),
                forall|g: int| 0 <= g < f ==> #[trigger] self.foreign_key_wf(t as int, g),
            decreases tb.foreign_keys@.len() - f,
        {
            let fk = &tb.foreign_keys[f];
            if !all_below(&fk.host_columns, tb.columns.len()) {
                proof {
                    assert(!self.foreign_key_wf(t as int, f as int));
                }
                return false;
            }
            if fk.referenced_table >= self.tables.len() {
                proof {
                    assert(!self.foreign_key_wf(t as int, f as int));
                }
                return false;
            }
            if !all_below(&fk.referenced_columns, self.tables[fk.referenced_table].columns.len()) {
                proof {
                    assert(!self.foreign_key_wf(t as int, f as int));
                }
                return false;
            }
            f = f + 1;
        }
        true
    }

    /// Whether some table of the catalog extends table `t`.
    pub fn is_extended(&self, t: usize) -> (r: bool)
        ensures
            r == self.extended(t as int),
    {
        let n = self.tables.len();
        let mut u: usize = 0;
        while u < n
            invariant
                n == self.len(),
                u <= n,
                forall|v: int| 0 <= v < u ==> #[trigger] self.table(v).extends != Some(t),
            decreases n - u,
        {
            match self.tables[u].extends {
                Some(p) => {
                    if p == t {
                        proof {
                            assert(self.table(u as int).extends == Some(t));
                        }
                        return true;
                    }
                },
                None => {},
            }
            u = u + 1;
        }
        false
    }

    /// The tables that yield nodes, in catalog order: those that no other
    /// table extends.
    pub fn leaf_tables(&self) -> (r: Vec<usize>)
        ensures
            r@ == self.leaves_from(0),
            forall|i: int|
                0 <= i < r@.len() ==> (#[trigger] r@[i] as int) < self.len() && !self.extended(
                    r@[i] as int,
                ),
    {
        let n = self.tables.len();
        let mut out: Vec<usize> = Vec::new();
        let mut t: usize = n;
        while t > 0
            invariant
                n == self.len(),
                t <= n,
                out@ == self.leaves_from(t as int),
            decreases t,
        {
            t = t - 1;
            if !self.is_extended(t) {
                out.insert(0, t);
            }
        }
        proof {
            lemma_leaf_tables(*self, 0);
            assert forall|i: int| 0 <= i < out@.len() implies (#[trigger] out@[i] as int) < self.len()
                && !self.extended(out@[i] as int) by {
                assert(self.leaves_from(0).contains(out@[i]));
            }
        }
        out
    }

    /// The tables that table `t` extends, nearest first.
    pub fn ancestors(&self, t: usize) -> (r: Vec<usize>)
        requires
            self.wf(),
            t < self.len(),
        ensures
            r@ == self.ancestors_of(t as int),
    {
        let n = self.tables.len();
        let mut out: Vec<usize> = Vec::new();
        let mut cur: usize = t;
        let mut k: usize = 0;
        while k < n
            invariant
                self.wf(),
                n == self.len(),
                k <= n,
                cur < n,
                out@.add(self.ancestor_chain(cur as int, (n - k) as nat)) == self.ancestors_of(
                    t as int,
                ),
            decreases n - k,
        {
            proof {
                assert(self.table_wf(cur as int));
            }
            match self.tables[cur].extends {
                Some(p) => {
                    proof {
                        assert(out@.push(p).add(self.ancestor_chain(p as int, (n - k - 1) as nat))
                            =~= out@.add(self.ancestor_chain(cur as int, (n - k) as nat)));
                    }
                    out.push(p);
                    cur = p;
                },
                None => {
                    proof {
                        assert(out@.add(self.ancestor_chain(cur as int, (n - k) as nat)) =~= out@);
                    }
                    return out;
                },
            }
            k = k + 1;
        }
        proof {
            assert(out@.add(self.ancestor_chain(cur as int, 0)) =~= out@);
        }
        out
    }

    /// Whether the foreign key `f` of table `t` references exactly the
    /// referenced table's primary key columns, in key order.
    pub fn is_referenced_primary_key(&self, t: usize, f: usize) -> (r: bool)
        requires
            self.wf(),
            t < self.len(),
            f < self.table(t as int).foreign_keys@.len(),
        ensures
            r == self.targets_primary_key(t as int, f as int),
    {
        proof {
            assert(self.table_wf(t as int));
            assert(self.foreign_key_wf(t as int, f as int));
        }
        let fk = &self.tables[t].foreign_keys[f];
        same_indices(&fk.referenced_columns, &self.tables[fk.referenced_table].primary_key)
    }
}

/// The tables that yield nodes are exactly those that no table extends, each
/// once, in catalog order.
pub proof fn lemma_leaf_tables(cat: Catalog, start: int)
    requires
        0 <= start <= cat.len(),
        cat.len() <= usize::MAX,
    ensures
        forall|t: usize|
            #![trigger cat.leaves_from(start).contains(t)]
            (t as int) < cat.len() ==> (cat.leaves_from(start).contains(t) <==> (start <= t
                && !cat.extended(t as int))),
        forall|i: int, j: int|
            0 <= i < j < cat.leaves_from(start).len() ==> #[trigger] cat.leaves_from(start)[i]
                < #[trigger] cat.leaves_from(start)[j],
        forall|i: int|
            0 <= i < cat.leaves_from(start).len() ==> start <= #[trigger] cat.leaves_from(start)[i]
                < cat.len(),
    decreases cat.len() - start,
{
    if start < cat.len() {
        lemma_leaf_tables(cat, start + 1);
        let rest = cat.leaves_from(start + 1);
        if !cat.extended(start) {
            let all = seq![start as usize].add(rest);
            assert(cat.leaves_from(start) == all);
            assert(all[0] == start);
            assert forall|k: int| 0 < k < all.len() implies #[trigger] all[k] == rest[k - 1] by {}
            assert forall|t: usize|
                #![trigger all.contains(t)]
                (t as int) < cat.len() implies (all.contains(t) <==> (start <= t && !cat.extended(
                    t as int,
                ))) by {
                if t == start {
                    assert(all[0] == t);
                } else if all.contains(t) {
                    let k = choose|k: int| 0 <= k < all.len() && all[k] == t;
                    assert(rest[k - 1] == t);
                    assert(rest.contains(t));
                } else if start + 1 <= t && !cat.extended(t as int) {
                    assert(rest.contains(t));
                    let k = choose|k: int| 0 <= k < rest.len() && rest[k] == t;
                    assert(all[k + 1] == t);
                }
            }
        }
    }
}

/// Whether every element of `v` is below `n`.
fn all_below(v: &Vec<usize>, n: usize) -> (r: bool)
    ensures
        r == columns_in(v@, n as int),
{
    let mut i: usize = 0;
    while i < v.len()
        invariant
            i <= v@.len(),
            forall|j: int| 0 <= j < i ==> #[trigger] v@[j] < n,
        decreases v@.len() - i,
    {
        if v[i] >= n {
            return false;
        }
        i = i + 1;
    }
    true
}

/// Whether two index sequences are equal.
fn same_indices(a: &Vec<usize>, b: &Vec<usize>) -> (r: bool)
    ensures
        r == (a@ == b@),
{
    if a.len() != b.len() {
        return false;
    }
    let mut i: usize = 0;
    while i < a.len()
        invariant
            a@.len() == b@.len(),
            i <= a@.len(),
            forall|j: int| 0 <= j < i ==> a@[j] == b@[j],
        decreases a@.len() - i,
    {
        if a[i] != b[i] {
            return false;
        }
        i = i + 1;
    }
    proof {
        assert(a@ =~= b@);
    }
    true
}

} // verus!
