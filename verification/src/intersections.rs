use vstd::prelude::*;

verus! {

/// One crossing of a ray with a surface.
///
/// `t` is the key of the ray parameter at the crossing: keys are less, equal
/// or greater as the parameters are, and a key is positive exactly when the
/// crossing lies in front of the ray's origin. `body` and `material` are the
/// keys of the body that was crossed and of its material.
#[derive(Clone, Copy, Debug)]
pub struct Intersection {
    pub t: i64,
    pub body: usize,
    pub material: usize,
}

impl Intersection {
    pub fn new(t: i64, body: usize, material: usize) -> (i: Self)
        ensures
            i == (Intersection { t, body, material }),
    {
        Self { t, body, material }
    }
}

/// Two intersections are equal when they lie at the same parameter.
impl PartialEq for Intersection {
    fn eq(&self, other: &Self) -> (r: bool) {
        self.t == other.t
    }
}

impl vstd::std_specs::cmp::PartialEqSpecImpl for Intersection {
    open spec fn obeys_eq_spec() -> bool {
        true
    }

    open spec fn eq_spec(&self, other: &Self) -> bool {
        self.t == other.t
    }
}

/// The parameters never decrease along the sequence.
pub open spec fn sorted(xs: Seq<Intersection>) -> bool {
    forall|i: int, j: int| 0 <= i <= j < xs.len() ==> xs[i].t <= xs[j].t
}

/// The intersections of `xs` that lie at parameter `t`, in their order.
pub open spec fn with_t(xs: Seq<Intersection>, t: int) -> Seq<Intersection>
    decreases xs.len(),
{
    if xs.len() == 0 {
        Seq::empty()
    } else if xs.last().t == t {
        with_t(xs.drop_last(), t).push(xs.last())
    } else {
        with_t(xs.drop_last(), t)
    }
}

/// `k` is the place of the hit: the intersection in front of the origin
/// with the least parameter, and the first of those where several lie at
/// that parameter.
pub open spec fn is_hit(xs: Seq<Intersection>, k: int) -> bool {
    &&& 0 <= k < xs.len()
    &&& xs[k].t > 0
    &&& forall|i: int| 0 <= i < xs.len() && xs[i].t > 0 ==> xs[k].t <= xs[i].t
    &&& forall|j: int| 0 <= j < k ==> xs[j].t != xs[k].t
}

/// `k` is the place of the first intersection at parameter `t`.
pub open spec fn is_first_at(xs: Seq<Intersection>, k: int, t: int) -> bool {
    &&& 0 <= k < xs.len()
    &&& xs[k].t == t
    &&& forall|j: int| 0 <= j < k ==> xs[j].t != t
}

/// The bodies that enclose the ray after it crosses a surface of `body`:
/// crossing a body that encloses the ray leaves it, crossing any other
/// enters it.
pub open spec fn toggle(containers: Seq<usize>, body: usize) -> Seq<usize> {
    if containers.contains(body) {
        containers.remove_value(body)
    } else {
        containers.push(body)
    }
}

/// The bodies that enclose the ray after the first `n` intersections of
/// `xs`, in the order in which the ray entered them.
pub open spec fn containers_after(xs: Seq<Intersection>, n: nat) -> Seq<usize>
    decreases n,
{
    if n == 0 {
        Seq::empty()
    } else {
        toggle(containers_after(xs, (n - 1) as nat), xs[n - 1].body)
    }
}

/// The body entered last, if any encloses the ray.
pub open spec fn innermost(containers: Seq<usize>) -> Option<usize> {
    if containers.len() == 0 {
        None
    } else {
        Some(containers.last())
    }
}

/// The intersection lies strictly between the origin and `distance`.
pub open spec fn occludes(i: Intersection, distance: int) -> bool {
    0 < i.t < distance
}

/// The materials of the intersections of `xs` that lie strictly between the
/// origin and `distance`, each once, in the order of their first occurrence.
pub open spec fn occluders_among(xs: Seq<Intersection>, distance: int) -> Seq<usize>
    decreases xs.len(),
{
    if xs.len() == 0 {
        Seq::empty()
    } else {
        let before = occluders_among(xs.drop_last(), distance);
        if occludes(xs.last(), distance) && !before.contains(xs.last().material) {
            before.push(xs.last().material)
        } else {
            before
        }
    }
}

/// Taking the intersections at one parameter goes through concatenation.
proof fn lemma_with_t_concat(a: Seq<Intersection>, b: Seq<Intersection>, t: int)
    ensures
        with_t(a + b, t) == with_t(a, t) + with_t(b, t),
    decreases b.len(),
{
    if b.len() == 0 {
        assert(a + b =~= a);
        assert(with_t(a, t) + with_t(b, t) =~= with_t(a, t));
    } else {
        lemma_with_t_concat(a, b.drop_last(), t);
        assert((a + b).drop_last() =~= a + b.drop_last());
        assert((a + b).last() == b.last());
        assert(with_t(a + b, t) =~= with_t(a, t) + with_t(b, t));
    }
}

/// Where no intersection lies at `t`, none is taken.
proof fn lemma_with_t_absent(a: Seq<Intersection>, t: int)
    requires
        forall|i: int| 0 <= i < a.len() ==> a[i].t != t,
    ensures
        with_t(a, t) == Seq::<Intersection>::empty(),
    decreases a.len(),
{
    if a.len() > 0 {
        lemma_with_t_absent(a.drop_last(), t);
    }
}

/// How many of the first `n` intersections of `xs` lie on `body`.
pub open spec fn crossings_of(xs: Seq<Intersection>, n: nat, body: usize) -> nat
    decreases n,
{
    if n == 0 {
        0
    } else if xs[n - 1].body == body {
        crossings_of(xs, (n - 1) as nat, body) + 1
    } else {
        crossings_of(xs, (n - 1) as nat, body)
    }
}

/// Crossing a surface of `body` changes whether `body` encloses the ray and
/// nothing else: no other body enters or leaves, and no body is held twice.
pub proof fn lemma_toggle(containers: Seq<usize>, body: usize)
    requires
        containers.no_duplicates(),
    ensures
        toggle(containers, body).no_duplicates(),
        toggle(containers, body).contains(body) != containers.contains(body),
        forall|other: usize|
            other != body ==> toggle(containers, body).contains(other) == containers.contains(
                other,
            ),
{
    let after = toggle(containers, body);
    if containers.contains(body) {
        containers.index_of_first_ensures(body);
        let at = containers.index_of_first(body).unwrap();
        containers.remove_ensures(at);
        assert(after == containers.remove(at));
        assert forall|i: int, j: int| 0 <= i < after.len() && 0 <= j < after.len() && i != j implies after[i]
            != after[j] by {
            let si = if i < at {
                i
            } else {
                i + 1
            };
            let sj = if j < at {
                j
            } else {
                j + 1
            };
            assert(after[i] == containers[si]);
            assert(after[j] == containers[sj]);
        }
        if after.contains(body) {
            let i = choose|i: int| 0 <= i < after.len() && after[i] == body;
            let si = if i < at {
                i
            } else {
                i + 1
            };
            assert(after[i] == containers[si]);
            assert(containers[si] == containers[at]);
        }
        assert forall|other: usize| other != body implies after.contains(other)
            == containers.contains(other) by {
            if containers.contains(other) {
                let k = choose|k: int| 0 <= k < containers.len() && containers[k] == other;
                let a = if k < at {
                    k
                } else {
                    k - 1
                };
                assert(after[a] == containers[k]);
            }
            if after.contains(other) {
                let i = choose|i: int| 0 <= i < after.len() && after[i] == other;
                let si = if i < at {
                    i
                } else {
                    i + 1
                };
                assert(after[i] == containers[si]);
            }
        }
    } else {
        assert(after == containers.push(body));
        assert(after[containers.len() as int] == body);
        assert forall|other: usize| other != body implies after.contains(other)
            == containers.contains(other) by {
            if containers.contains(other) {
                let k = choose|k: int| 0 <= k < containers.len() && containers[k] == other;
                assert(after[k] == other);
            }
            if after.contains(other) {
                let i = choose|i: int| 0 <= i < after.len() && after[i] == other;
                assert(containers[i] == other);
            }
        }
    }
}

/// After any number of intersections no body is held twice, and a body
/// encloses the ray exactly when the ray has crossed its surface an odd
/// number of times.
pub proof fn lemma_containers_by_parity(xs: Seq<Intersection>, n: nat)
    requires
        n <= xs.len(),
    ensures
        containers_after(xs, n).no_duplicates(),
        forall|body: usize|
            containers_after(xs, n).contains(body) == (crossings_of(xs, n, body) % 2 == 1),
    decreases n,
{
    if n == 0 {
        assert forall|body: usize| !containers_after(xs, n).contains(body) by {}
    } else {
        let before = containers_after(xs, (n - 1) as nat);
        let crossed = xs[n - 1].body;
        lemma_containers_by_parity(xs, (n - 1) as nat);
        lemma_toggle(before, crossed);
        assert forall|body: usize|
            containers_after(xs, n).contains(body) == (crossings_of(xs, n, body) % 2 == 1) by {
            assert(before.contains(body) == (crossings_of(xs, (n - 1) as nat, body) % 2 == 1));
        }
    }
}

/// The occluders hold no material twice, and hold a material exactly when
/// an intersection with it lies strictly between the origin and `distance`.
pub proof fn lemma_occluders(xs: Seq<Intersection>, distance: int)
    ensures
        occluders_among(xs, distance).no_duplicates(),
        forall|material: usize|
            occluders_among(xs, distance).contains(material) == (exists|i: int|
                0 <= i < xs.len() && occludes(xs[i], distance) && xs[i].material == material),
    decreases xs.len(),
{
    let all = occluders_among(xs, distance);
    if xs.len() == 0 {
        assert forall|material: usize| !all.contains(material) by {}
    } else {
        let rest = xs.drop_last();
        let before = occluders_among(rest, distance);
        let x = xs.last();
        lemma_occluders(rest, distance);
        let adds = occludes(x, distance) && !before.contains(x.material);
        if adds {
            assert(all == before.push(x.material));
            assert(all[before.len() as int] == x.material);
        } else {
            assert(all == before);
        }
        assert forall|material: usize|
            all.contains(material) == (exists|i: int|
                0 <= i < xs.len() && occludes(xs[i], distance) && xs[i].material
                    == material) by {
            let among = exists|i: int|
                0 <= i < xs.len() && occludes(xs[i], distance) && xs[i].material == material;
            let among_rest = exists|i: int|
                0 <= i < rest.len() && occludes(rest[i], distance) && rest[i].material
                    == material;
            assert(before.contains(material) == among_rest);
            if all.contains(material) {
                let k = choose|k: int| 0 <= k < all.len() && all[k] == material;
                if adds && k == before.len() {
                    assert(xs[xs.len() - 1] == x);
                    assert(among);
                } else {
                    assert(before[k] == material);
                    assert(before.contains(material));
                    let i = choose|i: int|
                        0 <= i < rest.len() && occludes(rest[i], distance) && rest[i].material
                            == material;
                    assert(xs[i] == rest[i]);
                    assert(among);
                }
            }
            if among {
                let i = choose|i: int|
                    0 <= i < xs.len() && occludes(xs[i], distance) && xs[i].material == material;
                if i < rest.len() {
                    assert(rest[i] == xs[i]);
                    assert(among_rest);
                    let k = choose|k: int| 0 <= k < before.len() && before[k] == material;
                    assert(all[k] == material);
                } else {
                    assert(xs[i] == x);
                    if adds {
                        assert(all[before.len() as int] == material);
                    } else {
                        assert(before.contains(material));
                    }
                }
                assert(all.contains(material));
            }
        }
    }
}

/// Some intersection of `xs` lies at parameter `t` exactly when `with_t`
/// takes one.
pub proof fn lemma_with_t_occupied(xs: Seq<Intersection>, t: int)
    ensures
        (with_t(xs, t).len() > 0) == (exists|i: int| 0 <= i < xs.len() && xs[i].t == t),
    decreases xs.len(),
{
    if xs.len() > 0 {
        let rest = xs.drop_last();
        lemma_with_t_occupied(rest, t);
        if exists|i: int| 0 <= i < xs.len() && xs[i].t == t {
            let i = choose|i: int| 0 <= i < xs.len() && xs[i].t == t;
            if i < rest.len() {
                assert(rest[i].t == t);
            }
        }
        if with_t(xs, t).len() > 0 {
            if xs.last().t == t {
                assert(xs[xs.len() - 1].t == t);
            } else {
                let i = choose|i: int| 0 <= i < rest.len() && rest[i].t == t;
                assert(xs[i].t == t);
            }
        }
    }
}

/// In sorted intersections the hit is the first one in front of the
/// origin: all before it lie at or behind the origin.
pub proof fn lemma_hit_of_sorted(xs: Seq<Intersection>, k: int)
    requires
        sorted(xs),
        is_hit(xs, k),
    ensures
        forall|j: int| 0 <= j < k ==> xs[j].t <= 0,
{
    assert forall|j: int| 0 <= j < k implies xs[j].t <= 0 by {
        if xs[j].t > 0 {
            assert(xs[k].t <= xs[j].t);
            assert(xs[j].t <= xs[k].t);
        }
    }
}

/// Sorting does not change the parameter of the hit, nor whether there is
/// one: two collections that hold the same intersections at every parameter
/// have their hits at the same parameter.
pub proof fn lemma_hit_through_sort(before: Seq<Intersection>, after: Seq<Intersection>)
    requires
        forall|t: int| #[trigger] with_t(after, t) == with_t(before, t),
    ensures
        forall|j: int, k: int| is_hit(before, j) && is_hit(after, k) ==> before[j].t == after[k].t,
        (forall|i: int| 0 <= i < before.len() ==> before[i].t <= 0) == (forall|i: int|
            0 <= i < after.len() ==> after[i].t <= 0),
{
    assert forall|i: int| 0 <= i < before.len() implies exists|j: int|
        0 <= j < after.len() && after[j].t == #[trigger] before[i].t by {
        let t = before[i].t as int;
        lemma_with_t_occupied(before, t);
        lemma_with_t_occupied(after, t);
        assert(with_t(after, t) == with_t(before, t));
    }
    assert forall|i: int| 0 <= i < after.len() implies exists|j: int|
        0 <= j < before.len() && before[j].t == #[trigger] after[i].t by {
        let t = after[i].t as int;
        lemma_with_t_occupied(before, t);
        lemma_with_t_occupied(after, t);
        assert(with_t(after, t) == with_t(before, t));
    }
    assert forall|j: int, k: int| is_hit(before, j) && is_hit(after, k) implies before[j].t
        == after[k].t by {
        let a = choose|a: int| 0 <= a < after.len() && after[a].t == before[j].t;
        let b = choose|b: int| 0 <= b < before.len() && before[b].t == after[k].t;
        assert(after[k].t <= after[a].t);
        assert(before[j].t <= before[b].t);
    }
    if forall|i: int| 0 <= i < before.len() ==> before[i].t <= 0 {
        assert forall|i: int| 0 <= i < after.len() implies after[i].t <= 0 by {
            let j = choose|j: int| 0 <= j < before.len() && before[j].t == after[i].t;
        }
    }
    if forall|i: int| 0 <= i < after.len() ==> after[i].t <= 0 {
        assert forall|i: int| 0 <= i < before.len() implies before[i].t <= 0 by {
            let j = choose|j: int| 0 <= j < after.len() && after[j].t == before[i].t;
        }
    }
}

/// Whether `key` occurs in `keys`.
fn holds(keys: &Vec<usize>, key: usize) -> (r: bool)
    ensures
        r == keys@.contains(key),
{
    let mut i: usize = 0;
    while i < keys.len()
        invariant
            i <= keys@.len(),
            forall|j: int| 0 <= j < i ==> keys@[j] != key,
        decreases keys@.len() - i,
    {
        if keys[i] == key {
            return true;
        }
        i += 1;
    }
    false
}

/// Lets the ray cross a surface of `body`: the body leaves `containers` if
/// it was there, and is put last if it was not.
fn cross(containers: &mut Vec<usize>, body: usize)
    ensures
        final(containers)@ == toggle(old(containers)@, body),
{
    let mut i: usize = 0;
    while i < containers.len()
        invariant
            i <= containers@.len(),
            containers@ == old(containers)@,
            forall|j: int| 0 <= j < i ==> containers@[j] != body,
        decreases containers@.len() - i,
    {
        if containers[i] == body {
            proof {
                containers@.index_of_first_ensures(body);
            }
            containers.remove(i);
            return ;
        }
        i += 1;
    }
    containers.push(body);
}

/// The last of `containers`, if there is one.
fn last_of(containers: &Vec<usize>) -> (r: Option<usize>)
    ensures
        r == innermost(containers@),
{
    if containers.len() == 0 {
        None
    } else {
        Some(containers[containers.len() - 1])
    }
}

/// The intersections of one ray, in the order in which they were put in
/// until they are sorted.
#[derive(Clone, Debug)]
pub struct Intersections {
    data: Vec<Intersection>,
}

impl View for Intersections {
    type V = Seq<Intersection>;

    closed spec fn view(&self) -> Seq<Intersection> {
        self.data@
    }
}

impl Default for Intersections {
    fn default() -> (xs: Self)
        ensures
            xs@ == Seq::<Intersection>::empty(),
    {
        Self { data: Vec::new() }
    }
}

impl std::ops::Index<usize> for Intersections {
    type Output = Intersection;

    /// The intersection at place `index`.
    fn index(&self, index: usize) -> (i: &Intersection)
        ensures
            *i == self@[index as int],
    {
        &self.data[index]
    }
}

impl vstd::std_specs::core::IndexSpecImpl<usize> for Intersections {
    open spec fn index_req(&self, index: &usize) -> bool {
        *index < self@.len()
    }
}

impl Intersections {
    pub fn new(i: Vec<Intersection>) -> (xs: Self)
        ensures
            xs@ == i@,
    {
        Self { data: i }
    }

    /// Puts `i` behind the intersections that are there.
    pub fn insert(&mut self, i: Intersection)
        ensures
            final(self)@ == old(self)@.push(i),
    {
        self.data.push(i);
    }

    /// Puts the intersections of `xs`, in their order, behind those that are
    /// there.
    pub fn extend(&mut self, xs: Intersections)
        ensures
            final(self)@ == old(self)@ + xs@,
    {
        let mut xs = xs;
        self.data.append(&mut xs.data);
    }

    pub fn count(&self) -> (n: usize)
        ensures
            n == self@.len(),
    {
        self.data.len()
    }

    /// Sorts the intersections by parameter, smallest first. Intersections
    /// at the same parameter keep their order.
    pub fn sort(&mut self)
        ensures
            sorted(final(self)@),
            final(self)@.len() == old(self)@.len(),
            forall|t: int| #[trigger] with_t(final(self)@, t) == with_t(old(self)@, t),
    {
        let mut out: Vec<Intersection> = Vec::new();
        let mut i: usize = 0;
        while i < self.data.len()
            invariant
                i <= self.data@.len(),
                self.data@ == old(self)@,
                out@.len() == i,
                sorted(out@),
                forall|t: int| #[trigger] with_t(out@, t) == with_t(self.data@.take(i as int), t),
            decreases self.data@.len() - i,
        {
            let x = self.data[i];
            let mut p: usize = out.len();
            while p > 0 && out[p - 1].t > x.t
                invariant
                    p <= out@.len(),
                    forall|j: int| p <= j < out@.len() ==> out@[j].t > x.t,
                decreases p,
            {
                p -= 1;
            }
            let ghost before = out@;
            out.insert(p, x);
            proof {
                let head = before.subrange(0, p as int);
                let tail = before.subrange(p as int, before.len() as int);
                let seen = self.data@.take(i as int);
                let more = self.data@.take(i + 1);
                assert(before =~= head + tail);
                assert(out@ == head.push(x) + tail);
                assert(head.push(x).drop_last() =~= head);
                assert(more.drop_last() =~= seen);
                assert(more.last() == x);
                assert forall|j: int, k: int| 0 <= j <= k < out@.len() implies out@[j].t
                    <= out@[k].t by {
                    before.insert_ensures(p as int, x);
                    if j < p && k > p {
                        assert(out@[k] == before[k - 1]);
                    } else if j < p && k == p {
                        assert(before[j].t <= before[p - 1].t);
                    } else if j < p {
                    } else if j == p && k > p {
                        assert(out@[k] == before[k - 1]);
                    } else if j > p {
                        assert(out@[j] == before[j - 1]);
                        assert(out@[k] == before[k - 1]);
                    }
                }
                assert forall|t: int| #[trigger] with_t(out@, t) == with_t(more, t) by {
                    lemma_with_t_concat(head.push(x), tail, t);
                    lemma_with_t_concat(head, tail, t);
                    assert(with_t(before, t) == with_t(seen, t));
                    if x.t == t {
                        lemma_with_t_absent(tail, t);
                        assert(with_t(out@, t) =~= with_t(before, t).push(x));
                    } else {
                        assert(with_t(out@, t) =~= with_t(before, t));
                    }
                }
            }
            i += 1;
        }
        assert(self.data@.take(i as int) =~= self.data@);
        self.data = out;
    }

    /// The place of the hit, if there is one: of the intersections in front
    /// of the origin the one with the least parameter, in whatever order
    /// they are held, and the first of those that lie at that parameter.
    pub fn hit_index(&self) -> (r: Option<usize>)
        ensures
            match r {
                Some(k) => is_hit(self@, k as int),
                None => forall|i: int| 0 <= i < self@.len() ==> self@[i].t <= 0,
            },
    {
        let mut best: Option<usize> = None;
        let mut i: usize = 0;
        while i < self.data.len()
            invariant
                i <= self.data@.len(),
                match best {
                    Some(k) => k < i && is_hit(self.data@.take(i as int), k as int),
                    None => forall|j: int| 0 <= j < i ==> self.data@[j].t <= 0,
                },
            decreases self.data@.len() - i,
        {
            let t = self.data[i].t;
            let nearer = match best {
                Some(k) => 0 < t && t < self.data[k].t,
                None => 0 < t,
            };
            proof {
                let seen = self.data@.take(i as int);
                let more = self.data@.take(i + 1);
                assert forall|j: int| 0 <= j < i implies more[j] == seen[j] by {}
                assert(more[i as int] == self.data@[i as int]);
            }
            if nearer {
                best = Some(i);
            }
            i += 1;
        }
        assert(self.data@.take(i as int) =~= self.data@);
        best
    }

    /// The hit, if there is one: of the intersections in front of the
    /// origin the one with the least parameter, in whatever order they are
    /// held, and the first of those that lie at that parameter.
    pub fn hit(&self) -> (r: Option<&Intersection>)
        ensures
            match r {
                Some(h) => {
                    &&& h.t > 0
                    &&& forall|i: int| 0 <= i < self@.len() && self@[i].t > 0 ==> h.t <= self@[i].t
                    &&& exists|k: int| is_hit(self@, k) && *h == self@[k]
                },
                None => forall|i: int| 0 <= i < self@.len() ==> self@[i].t <= 0,
            },
    {
        match self.hit_index() {
            Some(k) => {
                assert(is_hit(self@, k as int));
                Some(&self.data[k])
            },
            None => None,
        }
    }

    /// Whether an intersection lies in front of the origin and nearer than
    /// `distance`.
    pub fn hit_before(&self, distance: i64) -> (r: bool)
        ensures
            r == (exists|i: int| 0 <= i < self@.len() && 0 < (#[trigger] self@[i]).t < distance),
    {
        match self.hit_index() {
            Some(k) => {
                assert(is_hit(self@, k as int));
                self.data[k].t < distance
            },
            None => false,
        }
    }

    /// The bodies on the two sides of `intersection`: the innermost body
    /// that encloses the ray just before it reaches the first intersection
    /// at that parameter, and the innermost one just behind it. `None` is
    /// empty space. Both are `None` where no intersection lies at that
    /// parameter.
    pub fn get_mu_shift(&self, intersection: &Intersection) -> (r: (Option<usize>, Option<usize>))
        ensures
            (forall|i: int| 0 <= i < self@.len() ==> self@[i].t != intersection.t) ==> r == (
                None::<usize>,
                None::<usize>,
            ),
            forall|k: int|
                is_first_at(self@, k, intersection.t as int) ==> r == (
                    innermost(containers_after(self@, k as nat)),
                    innermost(containers_after(self@, (k + 1) as nat)),
                ),
    {
        let mut containers: Vec<usize> = Vec::new();
        let mut i: usize = 0;
        while i < self.data.len()
            invariant
                i <= self.data@.len(),
                containers@ == containers_after(self@, i as nat),
                forall|j: int| 0 <= j < i ==> self@[j].t != intersection.t,
            decreases self.data@.len() - i,
        {
            let reached = self.data[i].t == intersection.t;
            let from = last_of(&containers);
            cross(&mut containers, self.data[i].body);
            if reached {
                let to = last_of(&containers);
                assert(is_first_at(self@, i as int, intersection.t as int));
                return (from, to);
            }
            i += 1;
        }
        (None, None)
    }

    /// The materials that stand between the origin and `distance`: those of
    /// the intersections strictly between the two, each once, in the order
    /// of their first occurrence.
    pub fn occluders(&self, distance: i64) -> (r: Vec<usize>)
        ensures
            r@ == occluders_among(self@, distance as int),
    {
        let mut seen: Vec<usize> = Vec::new();
        let mut i: usize = 0;
        while i < self.data.len()
            invariant
                i <= self.data@.len(),
                seen@ == occluders_among(self.data@.take(i as int), distance as int),
            decreases self.data@.len() - i,
        {
            let x = self.data[i];
            proof {
                assert(self.data@.take(i + 1).drop_last() =~= self.data@.take(i as int));
                assert(self.data@.take(i + 1).last() == x);
            }
            if 0 < x.t && x.t < distance && !holds(&seen, x.material) {
                seen.push(x.material);
            }
            i += 1;
        }
        assert(self.data@.take(i as int) =~= self.data@);
        seen
    }
}

} // verus!
