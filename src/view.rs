use vstd::prelude::*;
use vstd::view::View as ModelOf;

verus! {

/// The address of a chunk on the horizontal plane.
#[derive(Clone, Copy, Debug, PartialEq, Eq, Structural, Hash)]
pub struct ChunkPosition {
    pub x: i32,
    pub z: i32,
}

impl ChunkPosition {
    pub open spec fn new_spec(x: i32, z: i32) -> ChunkPosition {
        ChunkPosition { x, z }
    }

    pub fn new(x: i32, z: i32) -> (r: ChunkPosition)
        ensures
            r.x == x,
            r.z == z,
    {
        ChunkPosition { x, z }
    }
}

/// Opaque identifier of the world an entity lives in.
#[derive(Clone, Copy, Debug, PartialEq, Eq, Structural, Hash)]
pub struct EntityWorld(pub u64);

/// Tag of the dimension an entity lives in.
#[derive(Clone, Copy, Debug, PartialEq, Eq, Structural, Hash)]
pub struct EntityDimension(pub u32);

/// The view of a player, representing the set of chunks
/// within their view distance.
#[derive(Clone, Copy, Debug, PartialEq, Eq, Structural)]
pub struct View {
    center: ChunkPosition,
    view_distance: u32,
    world: EntityWorld,
    dimension: EntityDimension,
}

/// Whether a padded box of the given distance around `center` has all its
/// bounds representable as `i32`.
pub open spec fn box_fits(center: ChunkPosition, view_distance: u32) -> bool {
    &&& center.x - view_distance - 1 >= i32::MIN
    &&& center.x + view_distance + 1 <= i32::MAX
    &&& center.z - view_distance - 1 >= i32::MIN
    &&& center.z + view_distance + 1 <= i32::MAX
}

/// The `i`-th cell of a row-major walk (x outer, z inner) over a box whose
/// rows are `w` cells long.
pub open spec fn grid_cell(min_x: int, min_z: int, w: int, i: int) -> ChunkPosition {
    ChunkPosition { x: (min_x + i / w) as i32, z: (min_z + i % w) as i32 }
}

/// ahash's `AHashSet`, which `difference` uses to subtract two views.
#[verifier::external_type_specification]
#[verifier::external_body]
#[verifier::reject_recursive_types(T)]
#[verifier::reject_recursive_types(S)]
pub struct ExAHashSet<T, S>(ahash::AHashSet<T, S>);

/// ahash's `RandomState`, the default hasher of `AHashSet`.
#[verifier::external_type_specification]
#[verifier::external_body]
pub struct ExRandomState(ahash::RandomState);

/// The chunk keys held by a hash set.
pub uninterp spec fn key_set_contents(s: ahash::AHashSet<(i32, i32)>) -> Set<(i32, i32)>;

/// Relies on `AHashSet`'s `FromIterator`: the set holds exactly the keys
/// collected into it.
#[verifier::external_body]
fn collect_keys(keys: &Vec<(i32, i32)>) -> (r: ahash::AHashSet<(i32, i32)>)
    ensures
        key_set_contents(r) == keys@.to_set(),
{
    keys.iter().copied().collect()
}

/// Relies on `HashSet::difference`, reached through `AHashSet`'s `Deref`:
/// every key of `a` that is not in `b`, each once, in no given order.
#[verifier::external_body]
fn keys_difference(a: &ahash::AHashSet<(i32, i32)>, b: &ahash::AHashSet<(i32, i32)>) -> (r: Vec<
    (i32, i32),
>)
    ensures
        r@.no_duplicates(),
        r@.to_set() == key_set_contents(*a).difference(key_set_contents(*b)),
{
    a.difference(b).copied().collect()
}

/// The hash key of a chunk.
pub open spec fn key_of(c: ChunkPosition) -> (i32, i32) {
    (c.x, c.z)
}

fn keys_of(v: &Vec<ChunkPosition>) -> (r: Vec<(i32, i32)>)
    ensures
        r@.len() == v@.len(),
        forall|i: int| 0 <= i < v@.len() ==> #[trigger] r@[i] == key_of(v@[i]),
{
    let mut r: Vec<(i32, i32)> = Vec::new();
    for i in 0..v.len()
        invariant
            r@.len() == i,
            forall|j: int| 0 <= j < i ==> #[trigger] r@[j] == key_of(v@[j]),
    {
        r.push((v[i].x, v[i].z));
    }
    r
}

fn positions_of(v: &Vec<(i32, i32)>) -> (r: Vec<ChunkPosition>)
    ensures
        r@.len() == v@.len(),
        forall|i: int| 0 <= i < v@.len() ==> key_of(#[trigger] r@[i]) == v@[i],
{
    let mut r: Vec<ChunkPosition> = Vec::new();
    for i in 0..v.len()
        invariant
            r@.len() == i,
            forall|j: int| 0 <= j < i ==> key_of(#[trigger] r@[j]) == v@[j],
    {
        r.push(ChunkPosition { x: v[i].0, z: v[i].1 });
    }
    r
}

/// Keys of a walk: a key is there exactly when its chunk is.
proof fn lemma_keys_contain(v: Seq<ChunkPosition>, k: Seq<(i32, i32)>, c: ChunkPosition)
    requires
        k.len() == v.len(),
        forall|i: int| 0 <= i < v.len() ==> #[trigger] k[i] == key_of(v[i]),
    ensures
        k.to_set().contains(key_of(c)) == v.to_set().contains(c),
{
    if v.contains(c) {
        let i = choose|i: int| 0 <= i < v.len() && v[i] == c;
        assert(k[i] == key_of(c));
    }
    if k.contains(key_of(c)) {
        let i = choose|i: int| 0 <= i < k.len() && k[i] == key_of(c);
        assert(v[i] == c);
    }
}

/// A cell index determines, and is determined by, its row and column.
proof fn lemma_grid_index(w: int, i: int, q: int, r: int)
    requires
        w > 0,
        0 <= r < w,
        i == q * w + r,
    ensures
        i / w == q,
        i % w == r,
{
    vstd::arithmetic::div_mod::lemma_fundamental_div_mod_converse(i, w, q, r);
}

/// Every index below `h * w` lands in the box of `h` rows of `w` cells.
proof fn lemma_grid_bounds(w: int, h: int, i: int)
    requires
        w > 0,
        h > 0,
        0 <= i < h * w,
    ensures
        0 <= i / w < h,
        0 <= i % w < w,
{
    vstd::arithmetic::div_mod::lemma_fundamental_div_mod(i, w);
    vstd::arithmetic::div_mod::lemma_mod_bound(i, w);
    let q = i / w;
    let r = i % w;
    assert(i == w * q + r);
    assert(0 <= q < h) by (nonlinear_arith)
        requires
            i == w * q + r,
            0 <= r < w,
            0 <= i < h * w,
            w > 0,
    ;
}

/// Distinct indices name distinct cells.
proof fn lemma_grid_injective(w: int, i: int, j: int)
    requires
        w > 0,
        i / w == j / w,
        i % w == j % w,
    ensures
        i == j,
{
    vstd::arithmetic::div_mod::lemma_fundamental_div_mod(i, w);
    vstd::arithmetic::div_mod::lemma_fundamental_div_mod(j, w);
}

/// The chunks of every cell of a row-major walk over the box
/// `[min_x, max_x] x [min_z, max_z]`, x outer and z inner, both ascending.
fn iter_2d(min_x: i32, min_z: i32, max_x: i32, max_z: i32) -> (r: Vec<ChunkPosition>)
    requires
        min_x <= max_x,
        min_z <= max_z,
    ensures
        r@.len() == (max_x - min_x + 1) * (max_z - min_z + 1),
        forall|i: int|
            0 <= i < r@.len() ==> #[trigger] r@[i] == grid_cell(
                min_x as int,
                min_z as int,
                max_z - min_z + 1,
                i,
            ),
{
    let ghost w: int = max_z - min_z + 1;
    let mut r: Vec<ChunkPosition> = Vec::new();
    let mut x: i32 = min_x;
    loop
        invariant_except_break
            r@.len() == (x - min_x) * w,
        invariant
            min_x <= x <= max_x,
            w == max_z - min_z + 1,
            w > 0,
            forall|i: int|
                0 <= i < r@.len() ==> #[trigger] r@[i] == grid_cell(
                    min_x as int,
                    min_z as int,
                    w,
                    i,
                ),
        ensures
            r@.len() == (max_x - min_x + 1) * w,
        decreases max_x - x,
    {
        let mut z: i32 = min_z;
        loop
            invariant_except_break
                r@.len() == (x - min_x) * w + (z - min_z),
            invariant
                min_x <= x <= max_x,
                min_z <= z <= max_z,
                w == max_z - min_z + 1,
                w > 0,
                forall|i: int|
                    0 <= i < r@.len() ==> #[trigger] r@[i] == grid_cell(
                        min_x as int,
                        min_z as int,
                        w,
                        i,
                    ),
            ensures
                r@.len() == (x - min_x) * w + w,
            decreases max_z - z,
        {
            proof {
                lemma_grid_index(w, r@.len() as int, x - min_x, z - min_z);
            }
            r.push(ChunkPosition { x, z });
            if z == max_z {
                break;
            }
            z = z + 1;
        }
        assert(r@.len() == (x - min_x + 1) * w) by (nonlinear_arith)
            requires
                r@.len() == (x - min_x) * w + w,
        ;
        if x == max_x {
            break;
        }
        x = x + 1;
    }
    r
}

impl View {
    pub closed spec fn spec_center(self) -> ChunkPosition {
        self.center
    }

    pub closed spec fn spec_view_distance(self) -> u32 {
        self.view_distance
    }

    pub closed spec fn spec_world(self) -> EntityWorld {
        self.world
    }

    pub closed spec fn spec_dimension(self) -> EntityDimension {
        self.dimension
    }

    /// The canonical empty view of a world and dimension.
    pub closed spec fn spec_empty(world: EntityWorld, dimension: EntityDimension) -> View {
        View { center: ChunkPosition { x: 0, z: 0 }, view_distance: 0, world, dimension }
    }

    /// Every bound of the padded box is representable.
    pub open spec fn wf(self) -> bool {
        box_fits(self.spec_center(), self.spec_view_distance())
    }

    pub open spec fn spec_is_empty(self) -> bool {
        self.spec_view_distance() == 0
    }

    pub open spec fn spec_min_x(self) -> int {
        self.spec_center().x - self.spec_view_distance() - 1
    }

    pub open spec fn spec_min_z(self) -> int {
        self.spec_center().z - self.spec_view_distance() - 1
    }

    pub open spec fn spec_max_x(self) -> int {
        self.spec_center().x + self.spec_view_distance() + 1
    }

    pub open spec fn spec_max_z(self) -> int {
        self.spec_center().z + self.spec_view_distance() + 1
    }

    /// Side length of the padded box.
    pub open spec fn side(self) -> int {
        2 * self.spec_view_distance() + 3
    }

    /// Geometric membership in the padded box, regardless of emptiness.
    pub open spec fn in_box(self, pos: ChunkPosition) -> bool {
        &&& self.spec_min_x() <= pos.x <= self.spec_max_x()
        &&& self.spec_min_z() <= pos.z <= self.spec_max_z()
    }

    /// The chunks the view covers: none when empty, the padded box otherwise.
    pub open spec fn chunks(self) -> Set<ChunkPosition> {
        Set::new(|c: ChunkPosition| !self.spec_is_empty() && self.in_box(c))
    }

    /// The chunks of the view in the order `iter` yields them.
    pub open spec fn chunk_seq(self) -> Seq<ChunkPosition> {
        if self.spec_is_empty() {
            Seq::empty()
        } else {
            Seq::new(
                (self.side() * self.side()) as nat,
                |i: int| grid_cell(self.spec_min_x(), self.spec_min_z(), self.side(), i),
            )
        }
    }

    /// The chunks that `self` has and `other` does not; views of different
    /// worlds or dimensions share no chunk.
    pub open spec fn difference_set(self, other: View) -> Set<ChunkPosition> {
        if self.spec_world() != other.spec_world() || self.spec_dimension()
            != other.spec_dimension() {
            self.chunks()
        } else {
            self.chunks().difference(other.chunks())
        }
    }

    /// Creates a `View` from a center chunk (the position of the player)
    /// and the view distance.
    pub fn new(
        center: ChunkPosition,
        view_distance: u32,
        world: EntityWorld,
        dimension: EntityDimension,
    ) -> (r: View)
        requires
            box_fits(center, view_distance),
        ensures
            r.wf(),
            r.spec_center() == center,
            r.spec_view_distance() == view_distance,
            r.spec_world() == world,
            r.spec_dimension() == dimension,
    {
        View { center, view_distance, world, dimension }
    }

    /// Gets the empty view, i.e., the view containing no chunks.
    pub fn empty(world: EntityWorld, dimension: EntityDimension) -> (r: View)
        ensures
            r.wf(),
            r.spec_is_empty(),
            r.spec_center() == ChunkPosition::new_spec(0, 0),
            r.spec_view_distance() == 0,
            r.spec_world() == world,
            r.spec_dimension() == dimension,
            r.chunks() == Set::<ChunkPosition>::empty(),
            r == View::spec_empty(world, dimension),
    {
        let r = Self::new(ChunkPosition::new(0, 0), 0, world, dimension);
        assert(r.chunks() =~= Set::<ChunkPosition>::empty());
        r
    }

    /// Determines whether this is the empty view.
    pub fn is_empty(&self) -> (r: bool)
        ensures
            r == self.spec_is_empty(),
            r == (self.chunks() == Set::<ChunkPosition>::empty()),
    {
        proof {
            if !self.spec_is_empty() {
                let c = self.spec_center();
                assert(self.chunks().contains(c));
            } else {
                assert(self.chunks() =~= Set::<ChunkPosition>::empty());
            }
        }
        self.view_distance == 0
    }

    pub fn center(&self) -> (r: ChunkPosition)
        ensures
            r == self.spec_center(),
    {
        self.center
    }

    pub fn view_distance(&self) -> (r: u32)
        ensures
            r == self.spec_view_distance(),
    {
        self.view_distance
    }

    pub fn set_center(&mut self, center: ChunkPosition)
        requires
            box_fits(center, old(self).spec_view_distance()),
        ensures
            final(self).wf(),
            final(self).spec_center() == center,
            final(self).spec_view_distance() == old(self).spec_view_distance(),
            final(self).spec_world() == old(self).spec_world(),
            final(self).spec_dimension() == old(self).spec_dimension(),
    {
        self.center = center;
    }

    pub fn set_view_distance(&mut self, view_distance: u32)
        requires
            box_fits(old(self).spec_center(), view_distance),
        ensures
            final(self).wf(),
            final(self).spec_center() == old(self).spec_center(),
            final(self).spec_view_distance() == view_distance,
            final(self).spec_world() == old(self).spec_world(),
            final(self).spec_dimension() == old(self).spec_dimension(),
    {
        self.view_distance = view_distance;
    }


    /// Iterates over chunks visible to the player.
    pub fn iter(&self) -> (r: Vec<ChunkPosition>)
        requires
            self.wf(),
        ensures
            r@ == self.chunk_seq(),
            r@.no_duplicates(),
            r@.to_set() == self.chunks(),
            !self.spec_is_empty() ==> r@.len() == self.side() * self.side(),
            forall|i: int| 0 <= i < r@.len() ==> self.in_box(#[trigger] r@[i]),
    {
        if self.is_empty() {
            let r: Vec<ChunkPosition> = Vec::new();
            proof {
                assert(r@ =~= self.chunk_seq());
                assert(r@.to_set() =~= self.chunks());
            }
            r
        } else {
            let r = iter_2d(self.min_x(), self.min_z(), self.max_x(), self.max_z());
            proof {
                self.lemma_chunk_seq_facts();
                assert(r@ =~= self.chunk_seq());
            }
            r
        }
    }

    /// The walk of a well-formed view has no repeats, stays in the box and
    /// reaches every chunk the view covers.
    pub proof fn lemma_chunk_seq_facts(self)
        requires
            self.wf(),
        ensures
            self.chunk_seq().no_duplicates(),
            self.chunk_seq().to_set() == self.chunks(),
            forall|i: int|
                0 <= i < self.chunk_seq().len() ==> self.in_box(#[trigger] self.chunk_seq()[i]),
    {
        let s = self.chunk_seq();
        if !self.spec_is_empty() {
            let w = self.side();
            let mx = self.spec_min_x();
            let mz = self.spec_min_z();
            assert(s.len() == w * w);
            assert forall|i: int| 0 <= i < s.len() implies self.in_box(#[trigger] s[i])
                && s[i].x == mx + i / w && s[i].z == mz + i % w by {
                lemma_grid_bounds(w, w, i);
            }
            assert forall|i: int, j: int|
                0 <= i < s.len() && 0 <= j < s.len() && i != j implies #[trigger] s[i]
                != #[trigger] s[j] by {
                if s[i] == s[j] {
                    lemma_grid_injective(w, i, j);
                }
            }
            assert forall|c: ChunkPosition| #[trigger]
                self.chunks().contains(c) implies s.contains(c) by {
                let i = (c.x - mx) * w + (c.z - mz);
                lemma_grid_index(w, i, c.x - mx, c.z - mz);
                assert(0 <= i < w * w) by (nonlinear_arith)
                    requires
                        i == (c.x - mx) * w + (c.z - mz),
                        0 <= c.x - mx < w,
                        0 <= c.z - mz < w,
                ;
                assert(s[i] == c);
            }
        }
        assert(s.to_set() =~= self.chunks());
    }

    /// Returns the minimum X chunk coordinate.
    pub fn min_x(&self) -> (r: i32)
        requires
            self.wf(),
        ensures
            r == self.spec_min_x(),
    {
        // The box is padded by one chunk beyond the view distance on every
        // side; the margin is kept as is.
        self.center.x - self.view_distance as i32 - 1
    }

    /// Returns the minimum Z coordinate.
    pub fn min_z(&self) -> (r: i32)
        requires
            self.wf(),
        ensures
            r == self.spec_min_z(),
    {
        self.center.z - self.view_distance as i32 - 1
    }

    /// Returns the maximum X coordinate.
    pub fn max_x(&self) -> (r: i32)
        requires
            self.wf(),
        ensures
            r == self.spec_max_x(),
    {
        self.center.x + self.view_distance as i32 + 1
    }

    /// Returns the maximum Z coordinate.
    pub fn max_z(&self) -> (r: i32)
        requires
            self.wf(),
        ensures
            r == self.spec_max_z(),
    {
        self.center.z + self.view_distance as i32 + 1
    }

    pub fn dimension(&self) -> (r: &EntityDimension)
        ensures
            *r == self.spec_dimension(),
    {
        &self.dimension
    }

    pub fn world(&self) -> (r: EntityWorld)
        ensures
            r == self.spec_world(),
    {
        self.world
    }

    /// Returns the set of chunks that are in `self` but not in `other`.
    /// Views of different worlds or dimensions share no chunk, so then the
    /// result is the whole of `self.iter()`.
    pub fn difference(&self, other: &View) -> (r: Vec<ChunkPosition>)
        requires
            self.wf(),
            other.wf(),
        ensures
            r@.no_duplicates(),
            r@.to_set() == self.difference_set(*other),
            (self.spec_world() != other.spec_world() || self.spec_dimension()
                != other.spec_dimension()) ==> r@ == self.chunk_seq(),
    {
        if self.dimension != other.dimension || self.world != other.world {
            self.iter()
        } else {
            let mine = self.iter();
            let theirs = other.iter();
            let mine_keys = keys_of(&mine);
            let their_keys = keys_of(&theirs);
            let self_chunks = collect_keys(&mine_keys);
            let other_chunks = collect_keys(&their_keys);
            let keys = keys_difference(&self_chunks, &other_chunks);
            let r = positions_of(&keys);
            proof {
                assert forall|i: int, j: int|
                    0 <= i < r@.len() && 0 <= j < r@.len() && i != j implies #[trigger] r@[i]
                    != #[trigger] r@[j] by {
                    assert(keys@[i] != keys@[j]);
                }
                assert forall|c: ChunkPosition|
                    r@.to_set().contains(c) == self.difference_set(*other).contains(c) by {
                    lemma_keys_contain(mine@, mine_keys@, c);
                    lemma_keys_contain(theirs@, their_keys@, c);
                    assert(keys@.to_set().contains(key_of(c))
                        == key_set_contents(self_chunks).difference(key_set_contents(other_chunks)).contains(key_of(c)));
                    if r@.contains(c) {
                        let i = choose|i: int| 0 <= i < r@.len() && r@[i] == c;
                        assert(keys@[i] == key_of(c));
                        assert(keys@.contains(key_of(c)));
                    }
                    if keys@.contains(key_of(c)) {
                        let i = choose|i: int| 0 <= i < keys@.len() && keys@[i] == key_of(c);
                        assert(key_of(r@[i]) == key_of(c));
                        assert(r@[i] == c);
                        assert(r@.contains(c));
                    }
                }
                assert(r@.to_set() =~= self.difference_set(*other));
            }
            r
        }
    }

    /// Determines whether the given chunk is visible.
    pub fn contains(&self, pos: ChunkPosition) -> (r: bool)
        requires
            self.wf(),
        ensures
            r == self.in_box(pos),
    {
        pos.x >= self.min_x() && pos.x <= self.max_x() && pos.z >= self.min_z() && pos.z
            <= self.max_z()
    }
}


/// A view never differs from itself: its difference with itself is empty.
pub proof fn lemma_difference_with_itself(v: View)
    ensures
        v.difference_set(v) == Set::<ChunkPosition>::empty(),
{
    assert(v.difference_set(v) =~= Set::<ChunkPosition>::empty());
}

/// Within one world and dimension, difference is a true set complement: the
/// two differences and the overlap together make up both views, and
/// `a.difference(b)` holds no chunk of `b`.
pub proof fn lemma_difference_partition(a: View, b: View)
    requires
        a.spec_world() == b.spec_world(),
        a.spec_dimension() == b.spec_dimension(),
    ensures
        a.difference_set(b).union(b.difference_set(a)).union(a.chunks().intersect(b.chunks()))
            == a.chunks().union(b.chunks()),
        a.difference_set(b).disjoint(b.chunks()),
{
    assert(a.difference_set(b).union(b.difference_set(a)).union(
        a.chunks().intersect(b.chunks()),
    ) =~= a.chunks().union(b.chunks()));
}

/// Across worlds or dimensions the difference is the whole of `a`, in the
/// order of its walk, whatever the coordinates of the two views.
pub proof fn lemma_difference_across_worlds(a: View, b: View)
    requires
        a.wf(),
        a.spec_world() != b.spec_world() || a.spec_dimension() != b.spec_dimension(),
    ensures
        a.difference_set(b) == a.chunks(),
        a.difference_set(b) == a.chunk_seq().to_set(),
{
    a.lemma_chunk_seq_facts();
}

/// The walk of a non-empty view of distance `r` yields `(2r + 3)^2` distinct
/// chunks, each of them inside the view's box.
pub proof fn lemma_walk_count(v: View)
    requires
        v.wf(),
        v.spec_view_distance() >= 1,
    ensures
        v.chunk_seq().len() == (2 * v.spec_view_distance() + 3) * (2 * v.spec_view_distance()
            + 3),
        v.chunk_seq().no_duplicates(),
        forall|i: int| 0 <= i < v.chunk_seq().len() ==> v.in_box(#[trigger] v.chunk_seq()[i]),
{
    v.lemma_chunk_seq_facts();
}

/// Against the empty view of any world and dimension, the difference of a
/// view is all of its chunks: a fresh player loads its whole view.
pub proof fn lemma_difference_from_empty(v: View, world: EntityWorld, dimension: EntityDimension)
    requires
        v.wf(),
    ensures
        v.difference_set(View::spec_empty(world, dimension)) == v.chunks(),
        v.difference_set(View::spec_empty(world, dimension)) == v.chunk_seq().to_set(),
{
    let e = View::spec_empty(world, dimension);
    assert(e.chunks() =~= Set::<ChunkPosition>::empty());
    assert(v.chunks().difference(e.chunks()) =~= v.chunks());
    v.lemma_chunk_seq_facts();
}

} // verus!
