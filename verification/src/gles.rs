//! The GLES 3.0 device: the budget it is opened with, what decides
//! whether the context the GPU gave is one this library draws with, and
//! the bookkeeping of the atlas on the GPU: which layer of which array
//! each page has, and the runs its dirty cells go up in.
//!
//! Finding the render node and making the GBM device, the EGL display and
//! the context are the program's, around this library; it hands
//! [`Device::try_open`] the context's `GL_VERSION`, or why there is none.
//! The GL calls that make and fill the textures are the program's too.
use vstd::prelude::*;

verus! {

/// How many atlas pages of each kind the device allocates room for, once,
/// at open. Pages are 1024 square; the mono array costs about 1.3 MB a
/// layer with its mips, the color array about 5.6 MB.
#[derive(Debug, Clone, Copy, PartialEq, Eq, Structural)]
pub struct Budget {
    /// Glyph and icon pages together. Default 4.
    pub mono_pages: u32,
    /// Image pages. Default 2.
    pub color_pages: u32,
}

impl Default for Budget {
    fn default() -> (b: Self)
        ensures
            b == (Budget { mono_pages: 4, color_pages: 2 }),
    {
        Budget { mono_pages: 4, color_pages: 2 }
    }
}

/// Why the device did not open.
#[derive(Debug)]
pub enum Error {
    /// No `/dev/dri/renderD*` could be opened.
    NoDevice,
    /// A GBM, EGL or GL step failed; the string names it.
    Setup(String),
}

/// The start of every GLES 3 `GL_VERSION` string.
pub open spec fn gles3_prefix() -> Seq<char> {
    seq!['O', 'p', 'e', 'n', 'G', 'L', ' ', 'E', 'S', ' ', '3', '.']
}

/// Whether a `GL_VERSION` string names GLES 3.
pub open spec fn is_gles3(version: Seq<char>) -> bool {
    gles3_prefix().len() <= version.len() && version.subrange(0, gles3_prefix().len() as int)
        == gles3_prefix()
}

/// What the device reports when the context is not GLES 3.
pub open spec fn wrong_version(version: Seq<char>) -> Seq<char> {
    "the context is "@ + version + ", GLES 3.0 is required"@
}

/// Whether `prefix` is the start of `s`, char by char.
fn starts_with(s: &str, prefix: &str) -> (r: bool)
    ensures
        r == (prefix@.len() <= s@.len() && s@.subrange(0, prefix@.len() as int) == prefix@),
{
    let n = prefix.unicode_len();
    let m = s.unicode_len();
    if n > m {
        return false;
    }
    let mut i: usize = 0;
    while i < n
        invariant
            n == prefix@.len(),
            m == s@.len(),
            n <= m,
            i <= n,
            forall|k: int| 0 <= k < i ==> s@[k] == prefix@[k],
        decreases n - i,
    {
        if s.get_char(i) != prefix.get_char(i) {
            assert(s@.subrange(0, n as int)[i as int] != prefix@[i as int]);
            return false;
        }
        i = i + 1;
    }
    assert(s@.subrange(0, n as int) =~= prefix@);
    true
}

/// The refusal for a context that is not GLES 3, with the version written
/// in where it stands.
fn refusal(version: &str) -> (m: String)
    ensures
        m@ == wrong_version(version@),
{
    let mut m = String::from_str("the context is ");
    m.append(version);
    m.append(", GLES 3.0 is required");
    proof {
        reveal_strlit("the context is ");
        reveal_strlit(", GLES 3.0 is required");
    }
    m
}

/// The GPU: one render node, one GBM device, one EGL display and one
/// GLES 3.0 context, current on the thread that opened it. This is what
/// the library keeps of it: the context's version and the budget.
#[derive(Debug)]
pub struct Device {
    version: String,
    budget: Budget,
}

impl Device {
    pub closed spec fn spec_version(&self) -> Seq<char> {
        self.version@
    }

    pub closed spec fn spec_budget(&self) -> Budget {
        self.budget
    }

    /// Opens on what the GPU gave: `gpu` is the context's `GL_VERSION`,
    /// or why no context was made. A context that is not GLES 3 does not
    /// open, and says what it was.
    pub fn try_open(budget: Budget, gpu: Result<String, Error>) -> (r: Result<Device, Error>)
        ensures
            match gpu {
                Err(e) => r matches Err(f) && f == e,
                Ok(version) => if is_gles3(version@) {
                    r matches Ok(d) && d.spec_version() == version@ && d.spec_budget() == budget
                } else {
                    r matches Err(Error::Setup(m)) && m@ == wrong_version(version@)
                },
            },
    {
        let version = match gpu {
            Ok(v) => v,
            Err(e) => return Err(e),
        };
        let prefix = "OpenGL ES 3.";
        proof {
            reveal_strlit("OpenGL ES 3.");
            assert(prefix@ =~= gles3_prefix());
        }
        if !starts_with(version.as_str(), prefix) {
            return Err(Error::Setup(refusal(version.as_str())));
        }
        Ok(Device { version, budget })
    }

    /// [`Device::try_open`] on a GLES 3 context, which always opens.
    pub fn open(budget: Budget, gpu: Result<String, Error>) -> (d: Device)
        requires
            gpu matches Ok(version) && is_gles3(version@),
        ensures
            gpu matches Ok(version) && d.spec_version() == version@,
            d.spec_budget() == budget,
    {
        match Self::try_open(budget, gpu) {
            Ok(d) => d,
            Err(_) => {
                proof {
                    assert(false);
                }
                Device { version: String::new(), budget }
            },
        }
    }

    /// The `GL_VERSION` string, `OpenGL ES 3.x ...`.
    pub fn version(&self) -> (v: &str)
        ensures
            v@ == self.spec_version(),
    {
        self.version.as_str()
    }

    /// The budget this device was opened with.
    pub fn budget(&self) -> (b: Budget)
        ensures
            b == self.spec_budget(),
    {
        self.budget
    }
}

/// What an atlas page holds.
#[derive(Debug, Clone, Copy, PartialEq, Eq, Structural)]
pub enum Class {
    Glyph,
    Icon,
    Image,
    /// Drawn by someone else: has no page.
    External,
}

/// The two array textures: one channel for glyphs and icons, four for
/// images.
#[derive(Debug, Clone, Copy, PartialEq, Eq, Structural)]
pub enum Array {
    Mono,
    Color,
}

pub open spec fn spec_array_of(class: Class) -> Array {
    match class {
        Class::Image => Array::Color,
        _ => Array::Mono,
    }
}

/// The array a page of `class` lives in. An external has no page.
pub fn array_of(class: Class) -> (a: Array)
    requires
        class != Class::External,
    ensures
        a == spec_array_of(class),
{
    match class {
        Class::Glyph | Class::Icon => Array::Mono,
        _ => Array::Color,
    }
}

/// Ids the page table holds: the shader's `ivec4 u_page[64]`.
pub const TABLE: usize = 256;

/// Why a page got no layer.
#[derive(Debug, Clone, Copy, PartialEq, Eq, Structural)]
pub enum Refused {
    /// Its id is past the page table.
    PastTable { id: u32 },
    /// Its array's budget of pages is spent by a page of `class`.
    Spent { array: Array, budget: u32, class: Class },
}

/// The pages `budget` allows in `array`.
pub open spec fn budget_of(budget: Budget, array: Array) -> u32 {
    match array {
        Array::Mono => budget.mono_pages,
        Array::Color => budget.color_pages,
    }
}

/// How many levels of a layer a run of a page of `class` goes up in:
/// glyph layers fill only the first, icon and image layers all five. An
/// external has no page.
pub open spec fn spec_levels(class: Class) -> nat {
    match class {
        Class::Glyph => 1,
        Class::Icon | Class::Image => 5,
        Class::External => 0,
    }
}

/// The levels a run of a page of `class` goes up in.
pub fn levels(class: Class) -> (n: u32)
    ensures
        n == spec_levels(class),
{
    match class {
        Class::Glyph => 1,
        Class::Icon | Class::Image => 5,
        Class::External => 0,
    }
}

/// How many sub-image uploads the runs take: each run, one per level of
/// its page's class.
pub open spec fn uploads(runs: Seq<Run>, layers: Map<u32, (Class, u32)>) -> nat
    decreases runs.len(),
{
    if runs.len() == 0 {
        0
    } else {
        uploads(runs.drop_last(), layers) + spec_levels(layers[runs.last().page].0)
    }
}

/// A page's entry in the table the shader reads: its class's code above,
/// its layer below.
pub open spec fn entry(code: u32, layer: u32) -> i32 {
    (((code << 8u32) | layer) as i32)
}

/// A page's table entry gives back what the shader reads from it: the
/// class's code in the bits above the lowest eight, the layer in those.
pub proof fn law_an_entry_reads_back(code: u32, layer: u32)
    requires
        code < 0x80_0000,
        layer < 0x100,
    ensures
        entry(code, layer) >> 8u32 == code as i32,
        entry(code, layer) & 0xff == layer as i32,
{
    assert((((code << 8u32) | layer) as i32) >> 8u32 == code as i32) by (bit_vector)
        requires
            code < 0x80_0000,
            layer < 0x100,
    ;
    assert((((code << 8u32) | layer) as i32) & 0xff == layer as i32) by (bit_vector)
        requires
            code < 0x80_0000,
            layer < 0x100,
    ;
}

/// The atlas pages resident on the GPU: by id, the class and layer of each
/// page that has one, the table the shader reads, and how much of each
/// array's budget is used.
pub struct Pages {
    budget: Budget,
    mono_used: u32,
    color_used: u32,
    pages: Vec<Option<(Class, u32)>>,
    table: Vec<i32>,
}

impl Pages {
    /// By id, the class and layer of each page that has a layer.
    pub closed spec fn layers(self) -> Map<u32, (Class, u32)> {
        Map::new(
            |id: u32| (id as int) < self.pages@.len() && self.pages@[id as int] is Some,
            |id: u32| self.pages@[id as int].unwrap(),
        )
    }

    pub closed spec fn spec_table(self) -> Seq<i32> {
        self.table@
    }

    pub closed spec fn used(self, array: Array) -> u32 {
        match array {
            Array::Mono => self.mono_used,
            Array::Color => self.color_used,
        }
    }

    pub closed spec fn spec_budget(self) -> Budget {
        self.budget
    }

    pub closed spec fn wf(self) -> bool {
        &&& self.table@.len() == TABLE
        &&& self.pages@.len() <= TABLE
        &&& self.mono_used <= self.budget.mono_pages
        &&& self.color_used <= self.budget.color_pages
    }

    /// No page resident; the table all zero.
    pub fn new(budget: Budget) -> (p: Pages)
        ensures
            p.wf(),
            p.layers() == Map::<u32, (Class, u32)>::empty(),
            p.spec_table() == Seq::new(TABLE as nat, |i: int| 0i32),
            p.used(Array::Mono) == 0,
            p.used(Array::Color) == 0,
            p.spec_budget() == budget,
    {
        let mut table: Vec<i32> = Vec::new();
        let mut i: usize = 0;
        while i < TABLE
            invariant
                i <= TABLE,
                table@ == Seq::new(i as nat, |k: int| 0i32),
            decreases TABLE - i,
        {
            table.push(0);
            assert(table@ =~= Seq::new((i + 1) as nat, |k: int| 0i32));
            i = i + 1;
        }
        let p = Pages { budget, mono_used: 0, color_used: 0, pages: Vec::new(), table };
        assert(p.layers() =~= Map::<u32, (Class, u32)>::empty());
        p
    }

    /// Whether page `id` has a layer.
    pub fn has(&self, id: u32) -> (b: bool)
        ensures
            b == self.layers().contains_key(id),
    {
        (id as usize) < self.pages.len() && self.pages[id as usize].is_some()
    }

    /// The class and layer of page `id`, if it has a layer.
    pub fn layer(&self, id: u32) -> (r: Option<(Class, u32)>)
        ensures
            r == if self.layers().contains_key(id) {
                Some(self.layers()[id])
            } else {
                None
            },
    {
        if (id as usize) < self.pages.len() {
            self.pages[id as usize]
        } else {
            None
        }
    }

    /// The table the shader reads: `code << 8 | layer` per id.
    pub fn table(&self) -> (t: &[i32])
        ensures
            t@ == self.spec_table(),
    {
        self.table.as_slice()
    }

    /// Why a page `id` of `class` could not be given a layer: its id past
    /// the table, or its array's budget spent. `None` when [`Pages::add`]
    /// may be called.
    pub fn refusal(&self, id: u32, class: Class) -> (r: Option<Refused>)
        requires
            class != Class::External,
        ensures
            r == if id as int >= TABLE {
                Some(Refused::PastTable { id })
            } else if self.used(spec_array_of(class)) >= budget_of(self.spec_budget(), spec_array_of(class)) {
                Some(Refused::Spent {
                    array: spec_array_of(class),
                    budget: budget_of(self.spec_budget(), spec_array_of(class)),
                    class,
                })
            } else {
                None
            },
    {
        if id as usize >= TABLE {
            return Some(Refused::PastTable { id });
        }
        match array_of(class) {
            Array::Mono => if self.mono_used >= self.budget.mono_pages {
                Some(Refused::Spent { array: Array::Mono, budget: self.budget.mono_pages, class })
            } else {
                None
            },
            Array::Color => if self.color_used >= self.budget.color_pages {
                Some(Refused::Spent { array: Array::Color, budget: self.budget.color_pages, class })
            } else {
                None
            },
        }
    }

    /// Give page `id`, of `class` with the shader's `code` for it, the
    /// next layer of its array, and write its table entry. The id must be
    /// in the table and the array's budget not spent: [`Pages::refusal`]
    /// says which is not.
    pub fn add(&mut self, id: u32, class: Class, code: u32) -> (layer: u32)
        requires
            old(self).wf(),
            class != Class::External,
            !old(self).layers().contains_key(id),
            (id as int) < TABLE,
            old(self).used(spec_array_of(class)) < budget_of(old(self).spec_budget(), spec_array_of(class)),
        ensures
            final(self).wf(),
            final(self).spec_budget() == old(self).spec_budget(),
            ({
                let array = spec_array_of(class);
                &&& layer == old(self).used(array)
                &&& final(self).used(array) == layer + 1
                &&& final(self).used(if array == Array::Mono { Array::Color } else { Array::Mono })
                    == old(self).used(if array == Array::Mono { Array::Color } else { Array::Mono })
                &&& final(self).layers() == old(self).layers().insert(id, (class, layer))
                &&& final(self).spec_table() == old(self).spec_table().update(
                    id as int,
                    entry(code, layer),
                )
            }),
    {
        let array = array_of(class);
        let layer = match array {
            Array::Mono => {
                self.mono_used = self.mono_used + 1;
                self.mono_used - 1
            },
            Array::Color => {
                self.color_used = self.color_used + 1;
                self.color_used - 1
            },
        };
        let ghost before = self.pages@;
        let ghost mid_table = self.table@;
        let ghost mid_mono = self.mono_used;
        let ghost mid_color = self.color_used;
        while self.pages.len() <= id as usize
            invariant
                self.pages@.len() == before.len() || self.pages@.len() <= id + 1,
                self.budget == old(self).budget,
                self.mono_used == mid_mono,
                self.color_used == mid_color,
                before.len() <= TABLE,
                self.table@ == mid_table,
                id < TABLE,
                self.pages@.len() >= before.len(),
                forall|k: int| 0 <= k < before.len() ==> self.pages@[k] == before[k],
                forall|k: int| before.len() <= k < self.pages@.len() ==> self.pages@[k] is None,
            decreases id + 1 - self.pages@.len(),
        {
            self.pages.push(None);
        }
        self.pages.set(id as usize, Some((class, layer)));
        let e: u32 = (code << 8u32) | layer;
        #[verifier::truncate]
        let v: i32 = e as i32;
        self.table.set(id as usize, v);
        proof {
            let old_layers = old(self).layers();
            assert forall|k: u32| #![auto] self.layers().contains_key(k) == old_layers.insert(id, (class, layer)).contains_key(k) by {
                if k != id && (k as int) < self.pages@.len() {
                    if (k as int) < before.len() {
                        assert(self.pages@[k as int] == before[k as int]);
                    } else {
                        assert(self.pages@[k as int] is None);
                    }
                }
            }
            assert forall|k: u32| #![auto] self.layers().contains_key(k) implies self.layers()[k] == old_layers.insert(id, (class, layer))[k] by {
                if k != id {
                    assert(self.pages@[k as int] == before[k as int]);
                }
            }
            assert(self.layers() =~= old_layers.insert(id, (class, layer)));
        }
        layer
    }
}

/// One dirty cell of a resident page: the page, its layer, and the cell's
/// row and column.
#[derive(Debug, Clone, Copy, PartialEq, Eq, Structural)]
pub struct Cell {
    pub page: u32,
    pub layer: u32,
    pub row: u8,
    pub col: u8,
}

/// A run of contiguous dirty cells in one row of one page: one upload per
/// level.
#[derive(Debug, Clone, Copy, PartialEq, Eq, Structural)]
pub struct Run {
    pub page: u32,
    pub layer: u32,
    pub row: u8,
    pub col: u8,
    pub count: u8,
}

/// Whether `c` goes on the end of run `r`: the same page and row, the
/// column just past it.
pub open spec fn extends(r: Run, c: Cell) -> bool {
    r.page == c.page && r.row == c.row && r.col + r.count == c.col
}

/// The dirty cells, in the order the atlas gives them, as runs: a cell
/// that extends the run before it joins it; any other starts a run.
pub open spec fn coalesce(cells: Seq<Cell>) -> Seq<Run>
    decreases cells.len(),
{
    if cells.len() == 0 {
        Seq::empty()
    } else {
        let runs = coalesce(cells.drop_last());
        let c = cells.last();
        if runs.len() > 0 && extends(runs.last(), c) {
            runs.update(
                runs.len() - 1,
                Run { count: (runs.last().count + 1) as u8, ..runs.last() },
            )
        } else {
            runs.push(Run { page: c.page, layer: c.layer, row: c.row, col: c.col, count: 1 })
        }
    }
}

/// Whether `c`, coming after `runs`, is counted within a byte: the end of
/// a run it might join is a column index, and a run it joins has fewer
/// than 255 cells.
pub open spec fn counts_in_a_byte(runs: Seq<Run>, c: Cell) -> bool {
    runs.len() > 0 && runs.last().page == c.page && runs.last().row == c.row ==> {
        &&& runs.last().col + runs.last().count <= 255
        &&& runs.last().col + runs.last().count == c.col ==> runs.last().count < 255
    }
}

/// Every cell, as it comes, is counted within a byte.
pub open spec fn runs_fit(cells: Seq<Cell>) -> bool {
    forall|n: int| 0 <= n < cells.len() ==> #[trigger] counts_in_a_byte(coalesce(cells.take(n)), cells[n])
}

/// The runs the dirty cells go up in.
pub fn runs(cells: &[Cell]) -> (r: Vec<Run>)
    requires
        runs_fit(cells@),
    ensures
        r@ == coalesce(cells@),
{
    let mut out: Vec<Run> = Vec::new();
    let mut i: usize = 0;
    while i < cells.len()
        invariant
            i <= cells@.len(),
            runs_fit(cells@),
            out@ == coalesce(cells@.take(i as int)),
        decreases cells@.len() - i,
    {
        let c = cells[i];
        proof {
            assert(cells@.take(i + 1).drop_last() =~= cells@.take(i as int));
            assert(cells@.take(i + 1).last() == c);
        }
        let n = out.len();
        proof {
            assert(counts_in_a_byte(coalesce(cells@.take(i as int)), cells@[i as int]));
        }
        let joins = if n > 0 {
            let last = out[n - 1];
            proof {
                assert(out@[n - 1] == out@.last());
            }
            last.page == c.page && last.row == c.row && (last.col as u16) + (last.count as u16)
                == (c.col as u16)
        } else {
            false
        };
        if joins {
            let last = out[n - 1];
            out.set(n - 1, Run { count: last.count + 1, ..last });
        } else {
            out.push(Run { page: c.page, layer: c.layer, row: c.row, col: c.col, count: 1 });
        }
        i = i + 1;
    }
    assert(cells@.take(cells@.len() as int) =~= cells@);
    out
}

/// The runs of cells all on pages of `pages` are on those pages too, and
/// no more than the cells.
proof fn lemma_coalesce_pages(cells: Seq<Cell>, pages: Set<u32>)
    requires
        forall|j: int| 0 <= j < cells.len() ==> pages.contains(#[trigger] cells[j].page),
    ensures
        coalesce(cells).len() <= cells.len(),
        forall|k: int|
            0 <= k < coalesce(cells).len() ==> pages.contains(#[trigger] coalesce(cells)[k].page),
    decreases cells.len(),
{
    if cells.len() > 0 {
        let front = cells.drop_last();
        assert forall|j: int| 0 <= j < front.len() implies pages.contains(#[trigger] front[j].page) by {
            assert(front[j] == cells[j]);
        }
        lemma_coalesce_pages(front, pages);
        assert(pages.contains(cells[cells.len() - 1].page));
    }
}

impl Pages {
    /// How many sub-image uploads the dirty cells, in the order the atlas
    /// gives them, go up in: one per level of each run, by the class of
    /// the run's page. Every dirty cell's page has a layer.
    pub fn uploads(&self, cells: &[Cell]) -> (n: u64)
        requires
            runs_fit(cells@),
            forall|j: int|
                0 <= j < cells@.len() ==> self.layers().contains_key(#[trigger] cells@[j].page),
            cells@.len() * 5 <= u64::MAX,
        ensures
            n == uploads(coalesce(cells@), self.layers()),
    {
        let r = runs(cells);
        proof {
            lemma_coalesce_pages(cells@, self.layers().dom());
        }
        let mut n: u64 = 0;
        let mut i: usize = 0;
        while i < r.len()
            invariant
                i <= r@.len(),
                r@ == coalesce(cells@),
                r@.len() <= cells@.len(),
                cells@.len() * 5 <= u64::MAX,
                forall|k: int| 0 <= k < r@.len() ==> self.layers().dom().contains(#[trigger] r@[k].page),
                n == uploads(r@.take(i as int), self.layers()),
                n <= 5 * i,
            decreases r@.len() - i,
        {
            let run = r[i];
            assert(self.layers().dom().contains(r@[i as int].page));
            let class = match self.layer(run.page) {
                Some((c, _)) => c,
                None => {
                    proof {
                        assert(false);
                    }
                    Class::External
                },
            };
            proof {
                assert(r@.take(i + 1).drop_last() =~= r@.take(i as int));
                assert(r@.take(i + 1).last() == run);
            }
            n = n + levels(class) as u64;
            i = i + 1;
        }
        assert(r@.take(r@.len() as int) =~= r@);
        n
    }
}

/// Uploads only what changed: nothing dirty, no run; and every dirty cell
/// is in exactly the run of its row that covers its column, so the runs
/// together cover as many cells as were dirty.
pub proof fn law_runs_cover_every_dirty_cell(cells: Seq<Cell>)
    requires
        runs_fit(cells),
    ensures
        cells.len() == 0 ==> coalesce(cells).len() == 0,
        total(coalesce(cells)) == cells.len(),
    decreases cells.len(),
{
    if cells.len() > 0 {
        let front = cells.drop_last();
        assert forall|n: int| 0 <= n < front.len() implies #[trigger] counts_in_a_byte(
            coalesce(front.take(n)),
            front[n],
        ) by {
            assert(front.take(n) =~= cells.take(n));
            assert(counts_in_a_byte(coalesce(cells.take(n)), cells[n]));
        }
        law_runs_cover_every_dirty_cell(front);
        let runs = coalesce(front);
        let c = cells.last();
        assert(cells.take(cells.len() - 1) =~= front);
        assert(counts_in_a_byte(coalesce(cells.take(cells.len() - 1)), cells[cells.len() - 1]));
        lemma_total_split(runs);
        if runs.len() > 0 && extends(runs.last(), c) {
            let grown = runs.update(runs.len() - 1, Run { count: (runs.last().count + 1) as u8, ..runs.last() });
            lemma_total_split(grown);
            assert(grown.drop_last() =~= runs.drop_last());
        } else {
            let pushed = runs.push(Run { page: c.page, layer: c.layer, row: c.row, col: c.col, count: 1 });
            lemma_total_split(pushed);
            assert(pushed.drop_last() =~= runs);
        }
    }
}

/// How many cells the runs cover.
pub open spec fn total(runs: Seq<Run>) -> int
    decreases runs.len(),
{
    if runs.len() == 0 {
        0
    } else {
        total(runs.drop_last()) + runs.last().count
    }
}

proof fn lemma_total_split(runs: Seq<Run>)
    ensures
        runs.len() > 0 ==> total(runs) == total(runs.drop_last()) + runs.last().count,
{
}

} // verus!
