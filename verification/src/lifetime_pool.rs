use vstd::prelude::*;

verus! {

/// The views of a sequence of strings.
pub open spec fn names_of(v: Seq<String>) -> Seq<Seq<char>> {
    v.map_values(|s: String| s@)
}

/// The names a fresh pool holds, in store order; the last one is handed out first.
pub open spec fn pool_names() -> Seq<Seq<char>> {
    seq![
        "'_a"@, "'_b"@, "'_c"@, "'_d"@, "'_e"@, "'_f"@, "'_g"@, "'_h"@,
        "'_i"@, "'_j"@, "'_k"@, "'_l"@, "'_m"@, "'_n"@, "'_o"@, "'_p"@,
        "'_q"@, "'_r"@, "'_s"@, "'_t"@, "'_u"@, "'_v"@, "'_w"@, "'_x"@,
        "'_y"@, "'_z"@,
    ]
}

/// The index of the last name of `names` that is not in `occupied`.
pub open spec fn last_free(names: Seq<Seq<char>>, occupied: Set<Seq<char>>) -> Option<int>
    decreases names.len(),
{
    if names.len() == 0 {
        None
    } else if !occupied.contains(names.last()) {
        Some(names.len() - 1)
    } else {
        last_free(names.drop_last(), occupied)
    }
}

/// How many names of `names` are not in `occupied`.
pub open spec fn count_free(names: Seq<Seq<char>>, occupied: Set<Seq<char>>) -> nat
    decreases names.len(),
{
    if names.len() == 0 {
        0
    } else {
        count_free(names.drop_last(), occupied) + if occupied.contains(names.last()) {
            0nat
        } else {
            1nat
        }
    }
}

/// What a pop does to the unused names: the name handed out, and the names left.
pub open spec fn pop_names(names: Seq<Seq<char>>, occupied: Set<Seq<char>>) -> (
    Seq<char>,
    Seq<Seq<char>>,
) {
    let k = last_free(names, occupied)->0;
    (names[k], names.take(k))
}

/// A source of lifetime names `'_a` to `'_z` that avoids the names a
/// function already declares.
pub struct LifetimePool<'a> {
    unused: Vec<String>,
    pub used: Vec<String>,
    occupied: &'a Vec<String>,
}

impl<'a> LifetimePool<'a> {
    /// The names not handed out yet, in store order.
    pub closed spec fn unused_names(&self) -> Seq<Seq<char>> {
        names_of(self.unused@)
    }

    /// The names handed out, in the order they were handed out.
    pub closed spec fn used_names(&self) -> Seq<Seq<char>> {
        names_of(self.used@)
    }

    /// The names the pool must never hand out.
    pub closed spec fn occupied_names(&self) -> Set<Seq<char>> {
        names_of(self.occupied@).to_set()
    }

    /// How many names the pool can still hand out.
    pub open spec fn free_count(&self) -> nat {
        count_free(self.unused_names(), self.occupied_names())
    }

    /// The pool's invariant: the unused names are a prefix of the names of a
    /// fresh pool, and the used ones are distinct names from the rest of it
    /// that are not occupied.
    pub closed spec fn wf(&self) -> bool {
        let n = self.unused_names().len();
        &&& n <= 26
        &&& self.unused_names() == pool_names().take(n as int)
        &&& self.used_names().no_duplicates()
        &&& forall|i: int|
            0 <= i < self.used_names().len() ==> {
                &&& pool_names().subrange(n as int, 26).contains(#[trigger] self.used_names()[i])
                &&& !self.occupied_names().contains(self.used_names()[i])
            }
    }
}


/// The names of a fresh pool are 26 distinct names.
pub proof fn lemma_pool_names_distinct()
    ensures
        pool_names().len() == 26,
        pool_names().no_duplicates(),
        forall|i: int|
            0 <= i < 26 ==> #[trigger] pool_names()[i].len() == 3 && pool_names()[i][0] == '\''
                && pool_names()[i][1] == '_',
{
    reveal_strlit("'_a"); reveal_strlit("'_b"); reveal_strlit("'_c"); reveal_strlit("'_d");
    reveal_strlit("'_e"); reveal_strlit("'_f"); reveal_strlit("'_g"); reveal_strlit("'_h");
    reveal_strlit("'_i"); reveal_strlit("'_j"); reveal_strlit("'_k"); reveal_strlit("'_l");
    reveal_strlit("'_m"); reveal_strlit("'_n"); reveal_strlit("'_o"); reveal_strlit("'_p");
    reveal_strlit("'_q"); reveal_strlit("'_r"); reveal_strlit("'_s"); reveal_strlit("'_t");
    reveal_strlit("'_u"); reveal_strlit("'_v"); reveal_strlit("'_w"); reveal_strlit("'_x");
    reveal_strlit("'_y"); reveal_strlit("'_z");
    let p = pool_names();
    assert forall|i: int, j: int| 0 <= i < 26 && 0 <= j < 26 && i != j implies p[i] != p[j] by {
        assert(p[i][2] != p[j][2]);
    }
    assert forall|i: int| 0 <= i < 26 implies #[trigger] p[i].len() == 3 && p[i][0] == '\'' && p[i][1] == '_' by {}
}

/// A free name exists exactly when the count of free names is positive, and
/// the last free name is not occupied.
pub proof fn lemma_last_free(names: Seq<Seq<char>>, occupied: Set<Seq<char>>)
    ensures
        (last_free(names, occupied) is Some) == (count_free(names, occupied) > 0),
        last_free(names, occupied) matches Some(k) ==> {
            &&& 0 <= k < names.len()
            &&& !occupied.contains(names[k])
            &&& count_free(names.take(k), occupied) + 1 == count_free(names, occupied)
        },
    decreases names.len(),
{
    if names.len() > 0 {
        lemma_last_free(names.drop_last(), occupied);
        if occupied.contains(names.last()) {
            if let Some(k) = last_free(names, occupied) {
                assert(names.drop_last().take(k) == names.take(k));
                assert(names.drop_last()[k] == names[k]);
            }
        } else {
            assert(names.take(names.len() - 1) == names.drop_last());
        }
    }
}

/// A well-formed pool has never handed out a name twice, nor a name it had to
/// avoid; every name it hands out is a lifetime name `'_` and a letter.
pub proof fn law_pool_names_fresh<'a>(pool: LifetimePool<'a>)
    requires
        pool.wf(),
    ensures
        pool.used_names().no_duplicates(),
        forall|i: int|
            0 <= i < pool.used_names().len() ==> !pool.occupied_names().contains(
                #[trigger] pool.used_names()[i],
            ),
        forall|i: int|
            0 <= i < pool.used_names().len() ==> pool_names().contains(#[trigger] pool.used_names()[i]),
        forall|i: int|
            0 <= i < pool.used_names().len() ==> (#[trigger] pool.used_names()[i]).len() == 3
                && pool.used_names()[i][0] == '\'' && pool.used_names()[i][1] == '_',
        pool.unused_names() == pool_names().take(pool.unused_names().len() as int),
        forall|i: int, j: int|
            0 <= i < pool.used_names().len() && 0 <= j < pool.unused_names().len()
                ==> #[trigger] pool.used_names()[i] != #[trigger] pool.unused_names()[j],
        pool.used_names().len() + pool.unused_names().len() <= 26,
{
    lemma_pool_names_distinct();
    let n = pool.unused_names().len();
    let rest = pool_names().subrange(n as int, 26);
    assert forall|i: int, j: int|
        0 <= i < pool.used_names().len() && 0 <= j < n implies #[trigger] pool.used_names()[i]
        != #[trigger] pool.unused_names()[j] by {
        let u = pool.used_names()[i];
        assert(rest.contains(u));
        let a = choose|a: int| 0 <= a < 26 - n && rest[a] == u;
        assert(pool_names()[n + a] == u);
        assert(pool.unused_names()[j] == pool_names()[j]);
    }
    assert(pool.used_names().len() <= 26 - n) by {
        pool.used_names().unique_seq_to_set();
        rest.lemma_cardinality_of_set();
        assert forall|x: Seq<char>| pool.used_names().to_set().contains(x) implies rest.to_set().contains(x) by {
            let i = choose|i: int| 0 <= i < pool.used_names().len() && pool.used_names()[i] == x;
            assert(rest.contains(pool.used_names()[i]));
        }
        vstd::set_lib::lemma_len_subset(pool.used_names().to_set(), rest.to_set());
    }
    assert forall|i: int| 0 <= i < pool.used_names().len() implies pool_names().contains(
        #[trigger] pool.used_names()[i],
    ) by {
        let n = pool.unused_names().len();
        let u = pool.used_names()[i];
        assert(pool_names().subrange(n as int, 26).contains(u));
        let j = choose|j: int| 0 <= j < 26 - n && pool_names().subrange(n as int, 26)[j] == u;
        assert(pool_names()[n + j] == u);
    }
    assert forall|i: int| 0 <= i < pool.used_names().len() implies (#[trigger] pool.used_names()[i]).len() == 3
        && pool.used_names()[i][0] == '\'' && pool.used_names()[i][1] == '_' by {
        let u = pool.used_names()[i];
        assert(pool_names().contains(u));
        let j = choose|j: int| 0 <= j < 26 && pool_names()[j] == u;
        assert(pool_names()[j].len() == 3);
    }
}

/// The names of `names` that are not in `occupied`, in store order.
pub open spec fn free_names(names: Seq<Seq<char>>, occupied: Set<Seq<char>>) -> Seq<Seq<char>>
    decreases names.len(),
{
    if names.len() == 0 {
        Seq::empty()
    } else if occupied.contains(names.last()) {
        free_names(names.drop_last(), occupied)
    } else {
        free_names(names.drop_last(), occupied).push(names.last())
    }
}

/// The names that `k` pops in a row hand out, starting from the unused
/// names `names`.
pub open spec fn popped_names(names: Seq<Seq<char>>, occupied: Set<Seq<char>>, k: nat) -> Seq<Seq<char>>
    decreases k,
{
    if k == 0 {
        Seq::empty()
    } else {
        let (name, rest) = pop_names(names, occupied);
        seq![name] + popped_names(rest, occupied, (k - 1) as nat)
    }
}

proof fn lemma_free_names(names: Seq<Seq<char>>, occupied: Set<Seq<char>>)
    ensures
        count_free(names, occupied) == free_names(names, occupied).len(),
        last_free(names, occupied) matches Some(k) ==> {
            &&& names[k] == free_names(names, occupied).last()
            &&& free_names(names.take(k), occupied) == free_names(names, occupied).drop_last()
        },
    decreases names.len(),
{
    if names.len() > 0 {
        lemma_free_names(names.drop_last(), occupied);
        lemma_last_free(names, occupied);
        lemma_last_free(names.drop_last(), occupied);
        if occupied.contains(names.last()) {
            if let Some(k) = last_free(names, occupied) {
                assert(names.drop_last().take(k) =~= names.take(k));
                assert(names.drop_last()[k] == names[k]);
            }
        } else {
            assert(names.take(names.len() - 1) =~= names.drop_last());
            assert(free_names(names, occupied).drop_last() =~= free_names(names.drop_last(), occupied));
        }
    }
}

/// Successive pops hand out the names that are not occupied, last stored
/// first (`'_z` before `'_y` in a fresh pool), one per pop, and there are as
/// many pops as such names: after them the pool has nothing left to hand out.
pub proof fn law_pool_pop_order(names: Seq<Seq<char>>, occupied: Set<Seq<char>>, k: nat)
    requires
        k <= count_free(names, occupied),
    ensures
        count_free(names, occupied) == free_names(names, occupied).len(),
        popped_names(names, occupied, k) == free_names(names, occupied).reverse().take(k as int),
    decreases k,
{
    lemma_free_names(names, occupied);
    if k > 0 {
        lemma_last_free(names, occupied);
        let (name, rest) = pop_names(names, occupied);
        let f = free_names(names, occupied);
        law_pool_pop_order(rest, occupied, (k - 1) as nat);
        lemma_free_names(rest, occupied);
        assert(free_names(rest, occupied) == f.drop_last());
        assert(name == f.last());
        assert(popped_names(names, occupied, k) =~= f.reverse().take(k as int));
    } else {
        assert(popped_names(names, occupied, k) =~= Seq::<Seq<char>>::empty());
        assert(free_names(names, occupied).reverse().take(0) =~= Seq::<Seq<char>>::empty());
    }
}

proof fn lemma_count_free_distinct(names: Seq<Seq<char>>, occupied: Set<Seq<char>>)
    requires
        names.no_duplicates(),
    ensures
        count_free(names, occupied) + names.to_set().intersect(occupied).len() == names.len(),
    decreases names.len(),
{
    broadcast use {vstd::set::group_set_axioms, vstd::seq_lib::seq_to_set_is_finite};

    if names.len() == 0 {
        assert(names.to_set().intersect(occupied) =~= Set::<Seq<char>>::empty());
    } else {
        let init = names.drop_last();
        let x = names.last();
        assert(init.no_duplicates());
        lemma_count_free_distinct(init, occupied);
        init.lemma_push_to_set_commute(x);
        assert(names =~= init.push(x));
        assert(!init.to_set().contains(x)) by {
            if init.to_set().contains(x) {
                let i = choose|i: int| 0 <= i < init.len() && init[i] == x;
                assert(names[i] == names[names.len() - 1]);
            }
        }
        let s0 = init.to_set().intersect(occupied);
        if occupied.contains(x) {
            assert(names.to_set().intersect(occupied) =~= s0.insert(x));
        } else {
            assert(names.to_set().intersect(occupied) =~= s0);
        }
    }
}

/// A fresh pool can hand out 26 names less the lifetimes of the handler
/// that are among `'_a` to `'_z`.
pub proof fn law_pool_capacity(occupied: Set<Seq<char>>)
    ensures
        count_free(pool_names(), occupied) == 26 - pool_names().to_set().intersect(occupied).len(),
{
    lemma_pool_names_distinct();
    lemma_count_free_distinct(pool_names(), occupied);
}

impl<'a> LifetimePool<'a> {
    /// A pool of all the names `'_a` to `'_z`, none handed out yet, that will
    /// never hand out a name of `occupied`.
    pub fn new(occupied: &'a Vec<String>) -> (pool: LifetimePool<'a>)
        ensures
            pool.wf(),
            pool.unused_names() == pool_names(),
            pool.used_names() == Seq::<Seq<char>>::empty(),
            pool.occupied_names() == names_of(occupied@).to_set(),
    {
        let unused = vec![
            "'_a".to_owned(), "'_b".to_owned(), "'_c".to_owned(), "'_d".to_owned(),
            "'_e".to_owned(), "'_f".to_owned(), "'_g".to_owned(), "'_h".to_owned(),
            "'_i".to_owned(), "'_j".to_owned(), "'_k".to_owned(), "'_l".to_owned(),
            "'_m".to_owned(), "'_n".to_owned(), "'_o".to_owned(), "'_p".to_owned(),
            "'_q".to_owned(), "'_r".to_owned(), "'_s".to_owned(), "'_t".to_owned(),
            "'_u".to_owned(), "'_v".to_owned(), "'_w".to_owned(), "'_x".to_owned(),
            "'_y".to_owned(), "'_z".to_owned(),
        ];
        let pool = LifetimePool { unused, used: Vec::new(), occupied };
        proof {
            lemma_pool_names_distinct();
            assert(pool.unused_names() =~= pool_names());
            assert(pool.unused_names() =~= pool_names().take(26));
            assert(pool.used_names() =~= Seq::<Seq<char>>::empty());
        }
        pool
    }

    /// Whether `name` is one of the occupied names.
    fn is_occupied(&self, name: &String) -> (b: bool)
        ensures
            b == self.occupied_names().contains(name@),
    {
        let n = self.occupied.len();
        let mut i: usize = 0;
        while i < n
            invariant
                n == self.occupied@.len(),
                0 <= i <= n,
                forall|j: int| 0 <= j < i ==> self.occupied@[j]@ != name@,
            decreases n - i,
        {
            if self.occupied[i] == *name {
                proof {
                    assert(names_of(self.occupied@)[i as int] == name@);
                }
                return true;
            }
            i = i + 1;
        }
        proof {
            if self.occupied_names().contains(name@) {
                let j = choose|j: int| 0 <= j < n && names_of(self.occupied@)[j] == name@;
                assert(self.occupied@[j]@ == name@);
            }
        }
        false
    }

    /// The names handed out, in order; the pool is used up.
    pub fn into_used(self) -> (r: Vec<String>)
        ensures
            names_of(r@) == self.used_names(),
    {
        self.used
    }

    /// How many more names the pool can hand out.
    pub fn available(&self) -> (n: usize)
        ensures
            n == self.free_count(),
    {
        let mut n: usize = 0;
        let mut i: usize = 0;
        while i < self.unused.len()
            invariant
                0 <= i <= self.unused@.len(),
                n == count_free(self.unused_names().take(i as int), self.occupied_names()),
                n <= i,
            decreases self.unused@.len() - i,
        {
            proof {
                assert(self.unused_names().take(i + 1).drop_last() == self.unused_names().take(i as int));
            }
            if !self.is_occupied(&self.unused[i]) {
                n = n + 1;
            }
            i = i + 1;
        }
        proof {
            assert(self.unused_names().take(i as int) == self.unused_names());
        }
        n
    }

    /// Hands out the last unused name that is not occupied, and drops the
    /// occupied names stored after it.
    pub fn pop(&mut self) -> (lifetime: String)
        requires
            old(self).free_count() > 0,
        ensures
            (lifetime@, final(self).unused_names()) == pop_names(
                old(self).unused_names(),
                old(self).occupied_names(),
            ),
            final(self).used_names() == old(self).used_names().push(lifetime@),
            final(self).occupied_names() == old(self).occupied_names(),
            final(self).free_count() + 1 == old(self).free_count(),
            !old(self).occupied_names().contains(lifetime@),
            old(self).wf() ==> final(self).wf() && !old(self).used_names().contains(lifetime@),
    {
        let ghost names = self.unused_names();
        let ghost occ = self.occupied_names();
        proof {
            lemma_last_free(names, occ);
        }
        let ghost k = last_free(names, occ)->0;
        loop
            invariant
                self.occupied == old(self).occupied,
                self.used == old(self).used,
                k < self.unused@.len() <= names.len(),
                self.unused_names() == names.take(self.unused@.len() as int),
                last_free(self.unused_names(), occ) == Some(k),
                last_free(names, occ) == Some(k),
                0 <= k < names.len(),
                !occ.contains(names[k]),
                occ == self.occupied_names(),
                names == old(self).unused_names(),
                count_free(names.take(k), occ) + 1 == count_free(names, occ),
            decreases self.unused@.len(),
        {
            let ghost before = self.unused_names();
            let candidate = match self.unused.pop() {
                Some(c) => c,
                None => {
                    proof {
                        assert(false);
                    }
                    String::new()
                },
            };
            proof {
                assert(self.unused_names() == before.drop_last());
                assert(before.last() == candidate@);
                assert(names.take(self.unused@.len() as int) == before.drop_last());
            }
            if !self.is_occupied(&candidate) {
                proof {
                    assert(self.unused@.len() == k);
                    assert(before == names.take(k + 1));
                    assert(candidate@ == names[k]);
                    assert(self.unused_names() == names.take(k));
                }
                self.used.push(candidate.clone());
                proof {
                    assert(self.used_names() =~= old(self).used_names().push(candidate@));
                    if old(self).wf() {
                        lemma_pool_names_distinct();
                        let n = names.len();
                        assert(names == pool_names().take(n as int));
                        assert(candidate@ == pool_names()[k]);
                        assert forall|i: int| 0 <= i < old(self).used_names().len() implies
                            old(self).used_names()[i] != candidate@ by {
                            let u = old(self).used_names()[i];
                            assert(pool_names().subrange(n as int, 26).contains(u));
                            let j = choose|j: int| 0 <= j < 26 - n && pool_names().subrange(n as int, 26)[j] == u;
                            assert(pool_names()[n + j] == u);
                        }
                        assert forall|i: int| 0 <= i < self.used_names().len() implies
                            pool_names().subrange(k, 26).contains(#[trigger] self.used_names()[i])
                        by {
                            if i < old(self).used_names().len() {
                                let u = old(self).used_names()[i];
                                let j = choose|j: int| 0 <= j < 26 - n && pool_names().subrange(n as int, 26)[j] == u;
                                assert(pool_names().subrange(k, 26)[n + j - k] == u);
                            } else {
                                assert(pool_names().subrange(k, 26)[0] == candidate@);
                            }
                        }
                        assert(self.unused_names() == pool_names().take(k));
                    }
                }
                proof {
                    assert(self.unused_names() == names.take(k));
                    assert(pop_names(names, occ) == (names[k], names.take(k)));
                    assert((candidate@, self.unused_names()) == pop_names(names, occ));
                }
                return candidate;
            }
            proof {
                assert(before.drop_last() == names.take(self.unused@.len() as int));
            }
        }
    }
}

} // verus!
