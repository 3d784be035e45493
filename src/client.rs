use std::collections::HashMap;
use vstd::prelude::*;

verus! {

broadcast use vstd::std_specs::hash::group_hash_axioms;

/// One record of the discussion API: a story, comment, job, poll or ask.
#[derive(Debug)]
pub struct Item {
    pub by: Option<String>,
    pub descendants: Option<i32>,
    pub id: i32,
    pub kids: Option<Vec<i32>>,
    pub score: Option<i32>,
    pub time: i32,
    pub title: Option<String>,
    pub kind: String,
    pub url: Option<String>,
    pub text: Option<String>,
}

/// The abstract value of an `Item`: its fields, with the child ids as a
/// sequence.
pub ghost struct ItemView {
    pub by: Option<String>,
    pub descendants: Option<i32>,
    pub id: i32,
    pub kids: Option<Seq<i32>>,
    pub score: Option<i32>,
    pub time: i32,
    pub title: Option<String>,
    pub kind: String,
    pub url: Option<String>,
    pub text: Option<String>,
}

impl View for Item {
    type V = ItemView;

    open spec fn view(&self) -> ItemView {
        ItemView {
            by: self.by,
            descendants: self.descendants,
            id: self.id,
            kids: match self.kids {
                Some(k) => Some(k@),
                None => None,
            },
            score: self.score,
            time: self.time,
            title: self.title,
            kind: self.kind,
            url: self.url,
            text: self.text,
        }
    }
}

/// The views of `items`, in order.
pub open spec fn views(items: Seq<Item>) -> Seq<ItemView> {
    items.map_values(|x: Item| x@)
}

/// A ranked list of stories that the API publishes.
#[derive(Debug, Clone, Copy, PartialEq, Eq, Structural)]
pub enum Category {
    Top,
    New,
    Show,
    Ask,
    Jobs,
}

/// Why a batch could not be resolved.
#[derive(Debug, Clone, Copy, PartialEq, Eq, Structural)]
pub enum FetchError {
    /// The API could not be reached or answered with a failure.
    Transport,
    /// A response did not have the shape of an item or an id list.
    Schema,
}

/// What a request needs next: the id list of a category, some items that
/// are not cached yet, or nothing more (the items, in the order asked for).
#[derive(Debug)]
pub enum Step {
    NeedIds(Category),
    NeedItems(Vec<i32>),
    Ready(Vec<Item>),
}

/// The abstract counterpart of `Step`.
pub ghost enum StepModel {
    NeedIds(Category),
    NeedItems(Set<i32>),
    Ready(Seq<ItemView>),
}

impl Step {
    pub open spec fn model(&self) -> StepModel {
        match self {
            Step::NeedIds(c) => StepModel::NeedIds(*c),
            Step::NeedItems(v) => StepModel::NeedItems(Set::new(|k: i32| v@.contains(k))),
            Step::Ready(v) => StepModel::Ready(views(v@)),
        }
    }
}

/// The first `count` ids of `ids`, or all of them where there are fewer.
pub open spec fn selected(ids: Seq<i32>, count: int) -> Seq<i32> {
    if count < ids.len() {
        ids.take(count)
    } else {
        ids
    }
}

/// The ids among `ids` that `store` does not hold.
pub open spec fn missing_from(ids: Seq<i32>, store: Map<i32, ItemView>) -> Set<i32> {
    Set::new(|k: i32| ids.contains(k) && !store.contains_key(k))
}

pub open spec fn all_cached(ids: Seq<i32>, store: Map<i32, ItemView>) -> bool {
    forall|i: int| 0 <= i < ids.len() ==> store.contains_key(#[trigger] ids[i])
}

/// The stored items of `ids`, in the order of `ids`.
pub open spec fn lookup_all(ids: Seq<i32>, store: Map<i32, ItemView>) -> Seq<ItemView> {
    ids.map_values(|k: i32| store[k])
}

/// `store` after the items of `fetched` were written into it, each under its
/// id. An entry, once there, is never replaced.
pub open spec fn absorbed(store: Map<i32, ItemView>, fetched: Seq<ItemView>) -> Map<i32, ItemView>
    decreases fetched.len(),
{
    if fetched.len() == 0 {
        store
    } else {
        let s = absorbed(store, fetched.drop_last());
        let x = fetched.last();
        if s.contains_key(x.id) {
            s
        } else {
            s.insert(x.id, x)
        }
    }
}

/// What resolving `ids` against `store` needs next.
pub open spec fn items_step(ids: Seq<i32>, store: Map<i32, ItemView>) -> StepModel {
    if all_cached(ids, store) {
        StepModel::Ready(lookup_all(ids, store))
    } else {
        StepModel::NeedItems(missing_from(ids, store))
    }
}

/// What a request for `count` items of a category needs next, given the
/// category's id list if it is known.
pub open spec fn request_step(
    c: Category,
    list: Option<Seq<i32>>,
    store: Map<i32, ItemView>,
    count: int,
) -> StepModel {
    match list {
        None => StepModel::NeedIds(c),
        Some(l) => items_step(selected(l, count), store),
    }
}

/// The result of a batch once its fetches are over: the error of a failed
/// fetch, a schema error where an asked id is still not stored, else success.
pub open spec fn batch_outcome(
    requested: Seq<i32>,
    store: Map<i32, ItemView>,
    failure: Option<FetchError>,
) -> Result<(), FetchError> {
    match failure {
        Some(e) => Err(e),
        None => if all_cached(requested, store) {
            Ok(())
        } else {
            Err(FetchError::Schema)
        },
    }
}

impl Item {
    /// A field by field copy.
    pub fn duplicate(&self) -> (r: Item)
        ensures
            r@ == self@,
    {
        Item {
            by: copy_text(&self.by),
            descendants: self.descendants,
            id: self.id,
            kids: match &self.kids {
                Some(k) => Some(copy_ids(k)),
                None => None,
            },
            score: self.score,
            time: self.time,
            title: copy_text(&self.title),
            kind: self.kind.clone(),
            url: copy_text(&self.url),
            text: copy_text(&self.text),
        }
    }
}

fn copy_text(s: &Option<String>) -> (r: Option<String>)
    ensures
        r == *s,
{
    match s {
        Some(t) => Some(t.clone()),
        None => None,
    }
}

fn copy_ids(v: &Vec<i32>) -> (r: Vec<i32>)
    ensures
        r@ == v@,
{
    let mut r: Vec<i32> = Vec::new();
    for i in 0..v.len()
        invariant
            r@ == v@.take(i as int),
    {
        r.push(v[i]);
    }
    assert(r@ =~= v@);
    r
}

/// Whether `v` holds `x`.
fn holds(v: &Vec<i32>, x: i32) -> (r: bool)
    ensures
        r == v@.contains(x),
{
    for i in 0..v.len()
        invariant
            forall|j: int| 0 <= j < i ==> v@[j] != x,
    {
        if v[i] == x {
            return true;
        }
    }
    false
}

/// The ids of the children of `x`, in display order.
pub open spec fn children(x: ItemView) -> Seq<i32> {
    match x.kids {
        Some(k) => k,
        None => Seq::empty(),
    }
}

/// One line of a discussion thread: an item and how deep it is nested.
#[derive(Debug)]
pub struct ThreadEntry {
    pub depth: usize,
    pub item: Item,
}

/// What showing a thread needs next: items that are not cached yet, or
/// nothing more (the entries of the thread).
#[derive(Debug)]
pub enum ThreadStep {
    NeedItems(Vec<i32>),
    Ready(Vec<ThreadEntry>),
}

pub open spec fn entry_id(v: Seq<ThreadEntry>, i: int) -> i32 {
    v[i].item.id
}

/// Entry `i` of `v` is a child of an earlier entry, one level deeper.
pub open spec fn has_parent(v: Seq<ThreadEntry>, i: int) -> bool {
    exists|j: int|
        0 <= j < i && children(v[j].item@).contains(entry_id(v, i)) && v[i].depth == v[j].depth
            + 1
}

/// `v` walks the thread under `root` through the items of `store`: it starts
/// at `root` at depth zero, holds each item at most once, as stored, and
/// reaches every later item from an earlier one.
pub open spec fn is_thread_walk(v: Seq<ThreadEntry>, root: i32, store: Map<i32, ItemView>) -> bool {
    &&& forall|i: int|
        0 <= i < v.len() ==> store.contains_key(#[trigger] entry_id(v, i)) && store[entry_id(v, i)]
            == v[i].item@
    &&& forall|i: int, j: int|
        0 <= i < j < v.len() ==> #[trigger] entry_id(v, i) != #[trigger] entry_id(v, j)
    &&& v.len() > 0 ==> v[0].depth == 0 && entry_id(v, 0) == root
    &&& forall|i: int| 0 < i < v.len() ==> #[trigger] has_parent(v, i)
}

/// Every child of an entry of `v` is an entry of `v` too.
pub open spec fn walk_closed(v: Seq<ThreadEntry>) -> bool {
    forall|i: int, k: i32|
        0 <= i < v.len() && #[trigger] children(v[i].item@).contains(k) ==> exists|j: int|
            0 <= j < v.len() && entry_id(v, j) == k
}

/// `k` is the root, or a child of a stored item.
pub open spec fn in_some_thread(k: i32, root: i32, store: Map<i32, ItemView>) -> bool {
    k == root || exists|p: i32| store.contains_key(p) && children(store[p]).contains(k)
}

/// Whether some entry of `v` is the item `id`.
fn walk_holds(v: &Vec<ThreadEntry>, id: i32) -> (r: bool)
    ensures
        r == exists|j: int| 0 <= j < v@.len() && entry_id(v@, j) == id,
{
    for i in 0..v.len()
        invariant
            forall|j: int| 0 <= j < i ==> entry_id(v@, j) != id,
    {
        if v[i].item.id == id {
            assert(entry_id(v@, i as int) == id);
            return true;
        }
    }
    false
}

/// The caches of one process: the id list of each category, fetched at
/// most once, and every item fetched so far, never replaced.
pub struct HttpClient {
    top_ids: Option<Vec<i32>>,
    new_ids: Option<Vec<i32>>,
    show_ids: Option<Vec<i32>>,
    ask_ids: Option<Vec<i32>>,
    jobs_ids: Option<Vec<i32>>,
    items: HashMap<i32, Item>,
}

impl HttpClient {
    /// The cached id list of `c`.
    pub closed spec fn list(&self, c: Category) -> Option<Seq<i32>> {
        let v = match c {
            Category::Top => self.top_ids,
            Category::New => self.new_ids,
            Category::Show => self.show_ids,
            Category::Ask => self.ask_ids,
            Category::Jobs => self.jobs_ids,
        };
        match v {
            Some(l) => Some(l@),
            None => None,
        }
    }

    /// The cached items, by id.
    pub closed spec fn store(&self) -> Map<i32, ItemView> {
        Map::new(|k: i32| self.items@.contains_key(k), |k: i32| self.items@[k]@)
    }

    /// Every stored item is stored under its own id.
    pub closed spec fn wf(&self) -> bool {
        forall|k: i32| #[trigger] self.items@.contains_key(k) ==> self.items@[k].id == k
    }

    /// A client whose caches are empty.
    pub fn new() -> (r: HttpClient)
        ensures
            r.wf(),
            r.store() == Map::<i32, ItemView>::empty(),
            forall|c: Category| r.list(c) is None,
    {
        HttpClient {
            top_ids: None,
            new_ids: None,
            show_ids: None,
            ask_ids: None,
            jobs_ids: None,
            items: HashMap::new(),
        }
    }

    fn ids_of(&self, c: Category) -> (r: &Option<Vec<i32>>)
        ensures
            self.list(c) == match r {
                Some(l) => Some(l@),
                None => None::<Seq<i32>>,
            },
    {
        match c {
            Category::Top => &self.top_ids,
            Category::New => &self.new_ids,
            Category::Show => &self.show_ids,
            Category::Ask => &self.ask_ids,
            Category::Jobs => &self.jobs_ids,
        }
    }

    /// Records the id list of `c`. A list already held is kept.
    pub fn store_ids(&mut self, c: Category, ids: Vec<i32>)
        requires
            old(self).wf(),
        ensures
            final(self).wf(),
            final(self).store() == old(self).store(),
            final(self).list(c) == match old(self).list(c) {
                Some(l) => Some(l),
                None => Some(ids@),
            },
            forall|d: Category| d != c ==> final(self).list(d) == old(self).list(d),
    {
        let slot = match c {
            Category::Top => &mut self.top_ids,
            Category::New => &mut self.new_ids,
            Category::Show => &mut self.show_ids,
            Category::Ask => &mut self.ask_ids,
            Category::Jobs => &mut self.jobs_ids,
        };
        if slot.is_none() {
            *slot = Some(ids);
        }
    }

    /// Writes each item of `stories` into the store under its id, leaving
    /// every entry already there as it is.
    pub fn add_to_cache(&mut self, stories: &[Item])
        requires
            old(self).wf(),
        ensures
            final(self).wf(),
            final(self).store() == absorbed(old(self).store(), views(stories@)),
            forall|c: Category| final(self).list(c) == old(self).list(c),
    {
        for i in 0..stories.len()
            invariant
                self.wf(),
                self.store() == absorbed(old(self).store(), views(stories@.take(i as int))),
                forall|c: Category| self.list(c) == old(self).list(c),
        {
            let x = &stories[i];
            assert(views(stories@.take(i + 1)).drop_last() =~= views(stories@.take(i as int)));
            assert(views(stories@.take(i + 1)).last() == x@);
            let ghost before = self.store();
            if !self.items.contains_key(&x.id) {
                self.items.insert(x.id, x.duplicate());
                assert(self.store() =~= before.insert(x.id, x@));
            }
        }
        assert(stories@.take(stories@.len() as int) =~= stories@);
    }

    /// What resolving `ids` needs next: the distinct ids that are not cached
    /// yet, or, where all are, the cached items in the order of `ids`.
    pub fn request_items(&self, ids: &Vec<i32>) -> (r: Step)
        requires
            self.wf(),
        ensures
            r.model() == items_step(ids@, self.store()),
            r matches Step::NeedItems(v) ==> v@.no_duplicates(),
    {
        let mut miss: Vec<i32> = Vec::new();
        for i in 0..ids.len()
            invariant
                miss@.no_duplicates(),
                forall|k: i32|
                    miss@.contains(k) <==> (ids@.take(i as int).contains(k)
                        && !self.store().contains_key(k)),
        {
            let k = ids[i];
            assert(ids@.take(i + 1) =~= ids@.take(i as int).push(k));
            let ghost before = miss@;
            if !self.items.contains_key(&k) && !holds(&miss, k) {
                miss.push(k);
            }
            assert forall|x: i32| miss@.contains(x) <==> (ids@.take(i + 1).contains(x)
                && !self.store().contains_key(x)) by {
                assert(ids@.take(i + 1).contains(x) <==> (ids@.take(i as int).contains(x) || x
                    == k)) by {
                    if ids@.take(i + 1).contains(x) {
                        let j = choose|j: int| 0 <= j < i + 1 && #[trigger] ids@.take(i + 1)[j] == x;
                        if j < i {
                            assert(ids@.take(i as int)[j] == x);
                        }
                    }
                    if ids@.take(i as int).contains(x) {
                        let j = choose|j: int| 0 <= j < i && #[trigger] ids@.take(i as int)[j] == x;
                        assert(ids@.take(i + 1)[j] == x);
                    }
                    assert(ids@.take(i + 1)[i as int] == k);
                }
                assert(miss@.contains(x) <==> (before.contains(x) || (miss@.len() > before.len()
                    && x == k))) by {
                    if miss@.len() > before.len() {
                        assert(miss@ =~= before.push(k));
                        if miss@.contains(x) && x != k {
                            let j = choose|j: int| 0 <= j < miss@.len() && #[trigger] miss@[j] == x;
                            assert(before[j] == x);
                        }
                        if before.contains(x) {
                            let j = choose|j: int| 0 <= j < before.len() && #[trigger] before[j] == x;
                            assert(miss@[j] == x);
                        }
                        assert(miss@[before.len() as int] == k);
                    }
                }
            }
        }
        assert(ids@.take(ids@.len() as int) =~= ids@);
        if miss.len() > 0 {
            assert(!all_cached(ids@, self.store())) by {
                assert(miss@.contains(miss@[0]));
            }
            assert(Set::new(|k: i32| miss@.contains(k)) =~= missing_from(ids@, self.store()));
            return Step::NeedItems(miss);
        }
        assert(all_cached(ids@, self.store())) by {
            assert forall|i: int| 0 <= i < ids@.len() implies self.store().contains_key(
                #[trigger] ids@[i],
            ) by {
                assert(ids@.contains(ids@[i]));
                assert(!miss@.contains(ids@[i]));
            }
        }
        let mut out: Vec<Item> = Vec::new();
        for i in 0..ids.len()
            invariant
                all_cached(ids@, self.store()),
                views(out@) == lookup_all(ids@.take(i as int), self.store()),
        {
            let k = ids[i];
            assert(self.store().contains_key(ids@[i as int]));
            let y = self.items.get(&k).unwrap().duplicate();
            assert(self.store()[k] == y@);
            let ghost prev = out@;
            out.push(y);
            assert(views(out@) =~= views(prev).push(y@));
            assert(ids@.take(i + 1) =~= ids@.take(i as int).push(k));
            assert(views(out@) =~= lookup_all(ids@.take(i + 1), self.store()));
        }
        assert(ids@.take(ids@.len() as int) =~= ids@);
        Step::Ready(out)
    }

    /// What a request for the first `count` items of `c` needs next.
    pub fn request(&self, c: Category, count: usize) -> (r: Step)
        requires
            self.wf(),
        ensures
            r.model() == request_step(c, self.list(c), self.store(), count as int),
            r matches Step::NeedItems(v) ==> v@.no_duplicates(),
    {
        match self.ids_of(c) {
            None => Step::NeedIds(c),
            Some(l) => {
                let n = if count < l.len() {
                    count
                } else {
                    l.len()
                };
                let mut sel: Vec<i32> = Vec::new();
                for i in 0..n
                    invariant
                        n <= l.len(),
                        sel@ == l@.take(i as int),
                {
                    sel.push(l[i]);
                }
                assert(sel@ =~= selected(l@, count as int));
                self.request_items(&sel)
            },
        }
    }

    /// Ends a batch: stores what was fetched, then reports the failure that
    /// cut it short, if any, or a schema error where an id of `requested`
    /// is still not stored.
    pub fn absorb(&mut self, requested: &Vec<i32>, fetched: &[Item], failure: Option<FetchError>) -> (r:
        Result<(), FetchError>)
        requires
            old(self).wf(),
        ensures
            final(self).wf(),
            final(self).store() == absorbed(old(self).store(), views(fetched@)),
            forall|c: Category| final(self).list(c) == old(self).list(c),
            r == batch_outcome(requested@, final(self).store(), failure),
    {
        self.add_to_cache(fetched);
        if let Some(e) = failure {
            return Err(e);
        }
        for i in 0..requested.len()
            invariant
                self.wf(),
                self.store() == absorbed(old(self).store(), views(fetched@)),
                forall|c: Category| self.list(c) == old(self).list(c),
                failure is None,
                forall|j: int| 0 <= j < i ==> self.store().contains_key(#[trigger] requested@[j]),
        {
            if !self.items.contains_key(&requested[i]) {
                return Err(FetchError::Schema);
            }
        }
        Ok(())
    }

    /// Walks the thread under `root` through the cached items, depth first,
    /// each item before its children and the children in display order, with
    /// an explicit worklist, and stops after `limit` entries. Where the walk
    /// meets ids that are not cached, it asks for them instead.
    pub fn request_thread(&self, root: i32, limit: usize) -> (r: ThreadStep)
        requires
            self.wf(),
        ensures
            match r {
                ThreadStep::NeedItems(m) => {
                    &&& m@.len() > 0
                    &&& m@.no_duplicates()
                    &&& forall|i: int|
                        0 <= i < m@.len() ==> !self.store().contains_key(#[trigger] m@[i])
                            && in_some_thread(m@[i], root, self.store())
                },
                ThreadStep::Ready(v) => {
                    &&& is_thread_walk(v@, root, self.store())
                    &&& v@.len() <= limit
                    &&& limit > 0 ==> v@.len() > 0
                    &&& v@.len() < limit ==> walk_closed(v@)
                },
            },
    {
        let mut stack: Vec<(i32, usize)> = Vec::new();
        stack.push((root, 0));
        let mut out: Vec<ThreadEntry> = Vec::new();
        let mut miss: Vec<i32> = Vec::new();
        while stack.len() > 0 && out.len() < limit
            invariant
                self.wf(),
                out@.len() <= limit,
                is_thread_walk(out@, root, self.store()),
                forall|i: int| 0 <= i < out@.len() ==> #[trigger] out@[i].depth <= i,
                out@.len() == 0 ==> (stack@ == seq![(root, 0usize)] && miss@.len() == 0) || (
                stack@.len() == 0 && miss@.len() > 0),
                forall|t: int|
                    0 <= t < stack@.len() ==> (out@.len() == 0 && #[trigger] stack@[t] == (
                    root,
                    0usize,
                )) || exists|j: int|
                        0 <= j < out@.len() && children(out@[j].item@).contains(stack@[t].0)
                            && stack@[t].1 == out@[j].depth + 1,
                forall|i: int, k: i32|
                    0 <= i < out@.len() && #[trigger] children(out@[i].item@).contains(k) ==> (
                    exists|j: int| 0 <= j < out@.len() && entry_id(out@, j) == k) || miss@.contains(
                        k,
                    ) || exists|t: int| 0 <= t < stack@.len() && stack@[t].0 == k,
                miss@.no_duplicates(),
                forall|i: int|
                    0 <= i < miss@.len() ==> !self.store().contains_key(#[trigger] miss@[i])
                        && in_some_thread(miss@[i], root, self.store()),
            decreases limit - out@.len(), stack@.len(),
        {
            let ghost stack0 = stack@;
            let ghost out0 = out@;
            let ghost miss0 = miss@;
            let ghost store = self.store();
            let (id, d) = stack.pop().unwrap();
            let ghost top = stack0.len() - 1;
            assert(stack0[top] == (id, d));
            assert(stack@ =~= stack0.drop_last());
            assert(d <= out0.len()) by {
                if !(out0.len() == 0 && stack0[top] == (root, 0usize)) {
                    let j = choose|j: int|
                        0 <= j < out0.len() && children(out0[j].item@).contains(stack0[top].0)
                            && stack0[top].1 == out0[j].depth + 1;
                    assert(out0[j].depth <= j);
                }
            }
            if walk_holds(&out, id) {
                assert forall|i: int, k: i32|
                    0 <= i < out@.len() && #[trigger] children(out@[i].item@).contains(k) implies (
                    exists|j: int| 0 <= j < out@.len() && entry_id(out@, j) == k) || miss@.contains(
                    k,
                ) || exists|t: int| 0 <= t < stack@.len() && stack@[t].0 == k by {
                    if exists|t: int| 0 <= t < stack0.len() && stack0[t].0 == k {
                        let t = choose|t: int| 0 <= t < stack0.len() && stack0[t].0 == k;
                        if t < top {
                            assert(stack@[t].0 == k);
                        }
                    }
                }
                continue;
            }
            match self.items.get(&id) {
                None => {
                    proof {
                        if out0.len() > 0 {
                            let j = choose|j: int|
                                0 <= j < out0.len() && children(out0[j].item@).contains(
                                    stack0[top].0,
                                ) && stack0[top].1 == out0[j].depth + 1;
                            assert(store.contains_key(entry_id(out0, j)));
                        }
                        assert(in_some_thread(id, root, store));
                    }
                    if !holds(&miss, id) {
                        miss.push(id);
                        assert(miss@ =~= miss0.push(id));
                    }
                    assert(miss@.contains(id)) by {
                        if miss@.len() > miss0.len() {
                            assert(miss@[miss0.len() as int] == id);
                        }
                    }
                    assert forall|t: int| 0 <= t < miss0.len() implies miss@[t] == miss0[t] by {}
                    assert forall|i: int, k: i32|
                        0 <= i < out@.len() && #[trigger] children(out@[i].item@).contains(
                            k,
                        ) implies (exists|j: int| 0 <= j < out@.len() && entry_id(out@, j) == k)
                        || miss@.contains(k) || exists|t: int|
                        0 <= t < stack@.len() && stack@[t].0 == k by {
                        if miss0.contains(k) {
                            let t = choose|t: int| 0 <= t < miss0.len() && miss0[t] == k;
                            assert(miss@[t] == k);
                        }
                        if exists|t: int| 0 <= t < stack0.len() && stack0[t].0 == k {
                            let t = choose|t: int| 0 <= t < stack0.len() && stack0[t].0 == k;
                            if t < top {
                                assert(stack@[t].0 == k);
                            }
                        }
                    }
                },
                Some(x) => {
                    let entry = ThreadEntry { depth: d, item: x.duplicate() };
                    assert(store.contains_key(id) && store[id] == entry.item@);
                    out.push(entry);
                    let ghost n = out0.len() as int;
                    assert(out@ =~= out0.push(entry));
                    assert forall|i: int| 0 <= i < n implies out@[i] == out0[i] by {}
                    proof {
                        assert forall|i: int| 0 < i < out@.len() implies #[trigger] has_parent(
                            out@,
                            i,
                        ) by {
                            if i < n {
                                assert(has_parent(out0, i));
                                let j = choose|j: int|
                                    0 <= j < i && children(out0[j].item@).contains(entry_id(out0, i))
                                        && out0[i].depth == out0[j].depth + 1;
                                assert(out@[j] == out0[j]);
                            } else {
                                let j = choose|j: int|
                                    0 <= j < out0.len() && children(out0[j].item@).contains(
                                        stack0[top].0,
                                    ) && stack0[top].1 == out0[j].depth + 1;
                                assert(out@[j] == out0[j]);
                            }
                        }
                        assert forall|i: int, j: int|
                            0 <= i < j < out@.len() implies #[trigger] entry_id(out@, i)
                            != #[trigger] entry_id(out@, j) by {
                            if j == n {
                                assert(entry_id(out0, i) != id);
                            } else {
                                assert(entry_id(out0, i) != entry_id(out0, j));
                            }
                        }
                        assert forall|i: int| 0 <= i < out@.len() implies store.contains_key(
                            #[trigger] entry_id(out@, i),
                        ) && store[entry_id(out@, i)] == out@[i].item@ by {
                            if i < n {
                                assert(store.contains_key(entry_id(out0, i)));
                            }
                        }
                        assert forall|i: int| 0 <= i < out@.len() implies #[trigger] out@[i].depth
                            <= i by {
                            if i < n {
                                assert(out0[i].depth <= i);
                            }
                        }
                    }
                    let ghost kids_seq = children(x@);
                    assert(children(out@[n].item@) == kids_seq);
                    if let Some(kids) = &x.kids {
                        assert(kids@ == kids_seq);
                        let mut i = kids.len();
                        while i > 0
                            invariant
                                0 <= i <= kids@.len(),
                                kids@ == kids_seq,
                                d < limit,
                                stack0.len() >= 1,
                                top == stack0.len() - 1,
                                stack@.len() == top + (kids@.len() - i),
                                forall|t: int| 0 <= t < top ==> #[trigger] stack@[t] == stack0[t],
                                forall|t: int|
                                    top <= t < stack@.len() ==> #[trigger] stack@[t] == (
                                        kids@[kids@.len() - 1 - (t - top)],
                                        (d + 1) as usize,
                                    ),
                            decreases i,
                        {
                            i = i - 1;
                            let ghost s0 = stack@;
                            stack.push((kids[i], d + 1));
                            assert(stack@ =~= s0.push((kids@[i as int], (d + 1) as usize)));
                            assert forall|t: int| top <= t < stack@.len() implies #[trigger] stack@[t]
                                == (kids@[kids@.len() - 1 - (t - top)], (d + 1) as usize) by {
                                if t < stack@.len() - 1 {
                                    assert(stack@[t] == s0[t]);
                                }
                            }
                        }
                    }
                    proof {
                        assert(forall|t: int| 0 <= t < top ==> #[trigger] stack@[t] == stack0[t]);
                        assert forall|t: int| 0 <= t < stack@.len() implies (out@.len() == 0
                            && #[trigger] stack@[t] == (root, 0usize)) || exists|j: int|
                            0 <= j < out@.len() && children(out@[j].item@).contains(stack@[t].0)
                                && stack@[t].1 == out@[j].depth + 1 by {
                            if t < top {
                                assert(stack@[t] == stack0[t]);
                                if !(out0.len() == 0 && stack0[t] == (root, 0usize)) {
                                    let j = choose|j: int|
                                        0 <= j < out0.len() && children(out0[j].item@).contains(
                                            stack0[t].0,
                                        ) && stack0[t].1 == out0[j].depth + 1;
                                    assert(out@[j] == out0[j]);
                                } else {
                                    assert(stack0 == seq![(root, 0usize)]);
                                }
                            } else {
                                let m = kids_seq.len() - 1 - (t - top);
                                assert(kids_seq[m] == stack@[t].0);
                                assert(children(out@[n].item@).contains(stack@[t].0));
                            }
                        }
                        assert forall|i: int, k: i32|
                            0 <= i < out@.len() && #[trigger] children(out@[i].item@).contains(
                                k,
                            ) implies (exists|j: int| 0 <= j < out@.len() && entry_id(out@, j) == k)
                            || miss@.contains(k) || exists|t: int|
                            0 <= t < stack@.len() && stack@[t].0 == k by {
                            if i == n {
                                let m = choose|m: int| 0 <= m < kids_seq.len() && kids_seq[m] == k;
                                let t = top + (kids_seq.len() - 1 - m);
                                assert(stack@[t].0 == k);
                            } else {
                                assert(out@[i] == out0[i]);
                                if exists|j: int| 0 <= j < out0.len() && entry_id(out0, j) == k {
                                    let j = choose|j: int| 0 <= j < out0.len() && entry_id(out0, j) == k;
                                    assert(entry_id(out@, j) == k);
                                } else if !miss0.contains(k) {
                                    let t = choose|t: int| 0 <= t < stack0.len() && stack0[t].0 == k;
                                    if t < top {
                                        assert(stack@[t] == stack0[t]);
                                    } else {
                                        assert(entry_id(out@, n) == k);
                                    }
                                }
                            }
                        }
                    }
                },
            }
        }
        if miss.len() > 0 {
            ThreadStep::NeedItems(miss)
        } else {
            ThreadStep::Ready(out)
        }
    }

    /// What a request for the first `count` stories of the Top list needs next.
    pub fn get_top(&self, count: usize) -> (r: Step)
        requires
            self.wf(),
        ensures
            r.model() == request_step(Category::Top, self.list(Category::Top), self.store(), count as int),
    {
        self.request(Category::Top, count)
    }

    /// What a request for the first `count` stories of the New list needs next.
    pub fn get_new(&self, count: usize) -> (r: Step)
        requires
            self.wf(),
        ensures
            r.model() == request_step(Category::New, self.list(Category::New), self.store(), count as int),
    {
        self.request(Category::New, count)
    }

    /// What a request for the first `count` stories of the Show list needs next.
    pub fn get_show(&self, count: usize) -> (r: Step)
        requires
            self.wf(),
        ensures
            r.model() == request_step(Category::Show, self.list(Category::Show), self.store(), count as int),
    {
        self.request(Category::Show, count)
    }

    /// What a request for the first `count` stories of the Ask list needs next.
    pub fn get_ask(&self, count: usize) -> (r: Step)
        requires
            self.wf(),
        ensures
            r.model() == request_step(Category::Ask, self.list(Category::Ask), self.store(), count as int),
    {
        self.request(Category::Ask, count)
    }

    /// What a request for the first `count` stories of the Jobs list needs next.
    pub fn get_jobs(&self, count: usize) -> (r: Step)
        requires
            self.wf(),
        ensures
            r.model() == request_step(Category::Jobs, self.list(Category::Jobs), self.store(), count as int),
    {
        self.request(Category::Jobs, count)
    }
}

} // verus!
