//! Where the modules of the bar stand.

use vstd::prelude::*;

use crate::geometry;
use crate::geometry::max_i32;
use crate::sight::module::BarModuleKind;
use crate::text;

verus! {

#[derive(Clone, Copy, Debug, PartialEq, Eq, Structural)]
pub enum BarSection {
    Left,
    Center,
    Right,
}

/// A module of the bar.
#[derive(Debug)]
pub struct BarModule {
    pub kind: BarModuleKind,
    pub args: Vec<String>,
    pub section: BarSection,
    /// Neighbours with the same name share one background.
    pub group: Option<String>,
}

/// The measures of the bar.
#[derive(Clone, Copy, Debug, PartialEq, Eq, Structural)]
pub struct BarStyle {
    pub height: i32,
    /// Whether the modules have backgrounds of their own.
    pub pill: bool,
    pub module_padding_x: i32,
    pub module_padding_y: i32,
    pub module_gap: i32,
    pub edge_padding_x: i32,
    pub edge_padding_y: i32,
    /// Whether the middle stays empty.
    pub hide_center: bool,
}

/// A module and where its content stands.
#[derive(Clone, Copy, Debug, PartialEq, Eq, Structural)]
pub struct PlacedModule {
    pub index: usize,
    pub x: i64,
    pub w: u32,
}

/// Modules that share a background, and where it stands.
#[derive(Debug)]
pub struct PlacedGroup {
    pub x: i64,
    pub w: i64,
    pub members: Vec<PlacedModule>,
}

#[verifier::ext_equal]
pub struct GroupPlace {
    pub x: int,
    pub w: int,
    pub members: Seq<PlacedModule>,
}

impl View for PlacedGroup {
    type V = GroupPlace;

    open spec fn view(&self) -> GroupPlace {
        GroupPlace { x: self.x as int, w: self.w as int, members: self.members@ }
    }
}

/// The models of the groups.
pub open spec fn place_views(gs: Seq<PlacedGroup>) -> Seq<GroupPlace> {
    gs.map_values(|g: PlacedGroup| g@)
}

/// The most modules that a bar has.
pub const MAX_MODULES: usize = 0x1_0000;

/// A measure, at least 0.
pub open spec fn at_least_zero(n: int) -> int {
    if n < 0 {
        0
    } else {
        n
    }
}

impl BarStyle {
    /// The room on each side of the content of a background.
    pub open spec fn pad(self) -> int {
        if self.pill {
            at_least_zero(self.module_padding_x as int)
        } else {
            0
        }
    }

    /// The room between modules.
    pub open spec fn gap(self) -> int {
        at_least_zero(self.module_gap as int)
    }

    /// The room at the edges of the bar.
    pub open spec fn margin(self) -> int {
        at_least_zero(self.edge_padding_x as int)
    }
}

// ---- Sections and groups ----------------------------------------------------

/// The modules among the first `n` in a section.
pub open spec fn in_section(ms: Seq<BarModule>, s: BarSection, n: int) -> Seq<usize>
    decreases n,
{
    if n <= 0 {
        Seq::empty()
    } else if ms[n - 1].section == s {
        in_section(ms, s, n - 1).push((n - 1) as usize)
    } else {
        in_section(ms, s, n - 1)
    }
}

/// Whether two modules share a background where they are neighbours.
pub open spec fn joined(a: BarModule, b: BarModule) -> bool {
    b.group is Some && text::opt_view(a.group) == text::opt_view(b.group)
}

/// The modules in groups of neighbours that share a background.
pub open spec fn grouped(ms: Seq<BarModule>, idx: Seq<usize>) -> Seq<Seq<usize>>
    decreases idx.len(),
{
    if idx.len() == 0 {
        Seq::empty()
    } else {
        let before = grouped(ms, idx.drop_last());
        if before.len() > 0 && joined(ms[idx[idx.len() - 2] as int], ms[idx.last() as int]) {
            before.drop_last().push(before.last().push(idx.last()))
        } else {
            before.push(seq![idx.last()])
        }
    }
}

/// The modules of all groups, one after another.
pub open spec fn flattened(gs: Seq<Seq<usize>>) -> Seq<usize>
    decreases gs.len(),
{
    if gs.len() == 0 {
        Seq::empty()
    } else {
        flattened(gs.drop_last()) + gs.last()
    }
}

/// The views of lists of indices.
pub open spec fn list_views(v: Seq<Vec<usize>>) -> Seq<Seq<usize>> {
    v.map_values(|g: Vec<usize>| g@)
}

/// The modules of the three sections, each in order.
pub fn split_modules(modules: &Vec<BarModule>) -> (out: (Vec<usize>, Vec<usize>, Vec<usize>))
    ensures
        out.0@ == in_section(modules@, BarSection::Left, modules@.len() as int),
        out.1@ == in_section(modules@, BarSection::Center, modules@.len() as int),
        out.2@ == in_section(modules@, BarSection::Right, modules@.len() as int),
{
    let mut left: Vec<usize> = Vec::new();
    let mut center: Vec<usize> = Vec::new();
    let mut right: Vec<usize> = Vec::new();
    let mut i: usize = 0;
    while i < modules.len()
        invariant
            i <= modules.len(),
            left@ == in_section(modules@, BarSection::Left, i as int),
            center@ == in_section(modules@, BarSection::Center, i as int),
            right@ == in_section(modules@, BarSection::Right, i as int),
        decreases modules.len() - i,
    {
        match modules[i].section {
            BarSection::Left => {
                left.push(i);
            },
            BarSection::Center => {
                center.push(i);
            },
            BarSection::Right => {
                right.push(i);
            },
        }
        i = i + 1;
    }
    (left, center, right)
}

proof fn lemma_in_section(ms: Seq<BarModule>, s: BarSection, n: int)
    requires
        0 <= n <= ms.len(),
        ms.len() <= usize::MAX,
    ensures
        in_section(ms, s, n).len() <= n,
        forall|i: int|
            0 <= i < in_section(ms, s, n).len() ==> #[trigger] in_section(ms, s, n)[i] < n,
    decreases n,
{
    if n > 0 {
        lemma_in_section(ms, s, n - 1);
    }
}

proof fn lemma_all_in_sections(ms: Seq<BarModule>, n: int)
    requires
        0 <= n <= ms.len(),
    ensures
        in_section(ms, BarSection::Left, n).len() + in_section(ms, BarSection::Center, n).len()
            + in_section(ms, BarSection::Right, n).len() == n,
    decreases n,
{
    if n > 0 {
        lemma_all_in_sections(ms, n - 1);
    }
}

fn share_group(a: &BarModule, b: &BarModule) -> (r: bool)
    ensures
        r == joined(*a, *b),
{
    b.group.is_some() && text::eq_opt_str(&a.group, &b.group)
}

proof fn lemma_grouped(ms: Seq<BarModule>, idx: Seq<usize>)
    ensures
        flattened(grouped(ms, idx)) == idx,
        grouped(ms, idx).len() <= idx.len(),
        forall|g: int|
            0 <= g < grouped(ms, idx).len() ==> (#[trigger] grouped(ms, idx)[g]).len() > 0,
        idx.len() > 0 ==> grouped(ms, idx).len() > 0 && grouped(ms, idx).last().last()
            == idx.last(),
    decreases idx.len(),
{
    if idx.len() > 0 {
        let rest = idx.drop_last();
        lemma_grouped(ms, rest);
        let before = grouped(ms, rest);
        let after = grouped(ms, idx);
        if before.len() > 0 && joined(ms[idx[idx.len() - 2] as int], ms[idx.last() as int]) {
            assert(after.drop_last() =~= before.drop_last());
            assert(after.last() == before.last().push(idx.last()));
            assert(flattened(after) =~= flattened(before.drop_last()) + before.last().push(
                idx.last(),
            ));
            assert(flattened(before) == flattened(before.drop_last()) + before.last());
            assert(flattened(after) =~= rest.push(idx.last()));
            assert forall|g: int| 0 <= g < after.len() implies (#[trigger] after[g]).len() > 0 by {
                if g < after.len() - 1 {
                    assert(after[g] == before[g]);
                }
            }
        } else {
            assert(after.drop_last() =~= before);
            assert(flattened(after) =~= rest.push(idx.last()));
            assert forall|g: int| 0 <= g < after.len() implies (#[trigger] after[g]).len() > 0 by {
                if g < after.len() - 1 {
                    assert(after[g] == before[g]);
                }
            }
        }
        assert(rest.push(idx.last()) =~= idx);
    }
}

/// Grouping keeps the modules and their order: the groups, one after another,
/// are the modules again.
pub proof fn law_grouping_keeps_order(ms: Seq<BarModule>, idx: Seq<usize>)
    ensures
        flattened(grouped(ms, idx)) == idx,
{
    lemma_grouped(ms, idx);
}

/// Every module is in exactly one section.
pub proof fn law_every_module_has_a_section(ms: Seq<BarModule>)
    ensures
        in_section(ms, BarSection::Left, ms.len() as int).len() + in_section(
            ms,
            BarSection::Center,
            ms.len() as int,
        ).len() + in_section(ms, BarSection::Right, ms.len() as int).len() == ms.len(),
{
    lemma_all_in_sections(ms, ms.len() as int);
}

/// The modules in groups of neighbours that share a background.
pub fn group_adjacent(modules: &Vec<BarModule>, idx: &Vec<usize>) -> (groups: Vec<Vec<usize>>)
    requires
        forall|i: int| 0 <= i < idx@.len() ==> #[trigger] idx@[i] < modules@.len(),
    ensures
        list_views(groups@) == grouped(modules@, idx@),
{
    let mut groups: Vec<Vec<usize>> = Vec::new();
    let mut i: usize = 0;
    assert(idx@.take(0) =~= Seq::<usize>::empty());
    assert(list_views(groups@) =~= grouped(modules@, idx@.take(0)));
    while i < idx.len()
        invariant
            i <= idx.len(),
            forall|i: int| 0 <= i < idx@.len() ==> #[trigger] idx@[i] < modules@.len(),
            list_views(groups@) == grouped(modules@, idx@.take(i as int)),
        decreases idx.len() - i,
    {
        let ghost before = list_views(groups@);
        let ghost now = idx@.take(i + 1);
        assert(now.drop_last() =~= idx@.take(i as int));
        assert(now.last() == idx@[i as int]);
        proof {
            lemma_grouped(modules@, idx@.take(i as int));
        }
        let extend: bool = i > 0 && share_group(&modules[idx[i - 1]], &modules[idx[i]]);
        if extend {
            let last: usize = groups.len() - 1;
            assert(before.len() == groups@.len());
            assert(now[now.len() - 2] == idx@[i - 1]);
            assert(before.last() == groups@[last as int]@);
            let ghost old_groups = groups@;
            groups[last].push(idx[i]);
            assert forall|g: int| 0 <= g < groups@.len() implies list_views(groups@)[g]
                == before.drop_last().push(before.last().push(idx@[i as int]))[g] by {
                if g < last {
                    assert(groups@[g] == old_groups[g]);
                    assert(before[g] == old_groups[g]@);
                }
            }
            assert(list_views(groups@) =~= before.drop_last().push(
                before.last().push(idx@[i as int]),
            ));
        } else {
            let mut g: Vec<usize> = Vec::new();
            g.push(idx[i]);
            assert(g@ =~= seq![idx@[i as int]]);
            groups.push(g);
            assert(list_views(groups@) =~= before.push(seq![idx@[i as int]]));
            if i > 0 {
                assert(now[now.len() - 2] == idx@[i - 1]);
            }
        }
        i = i + 1;
    }
    assert(idx@.take(idx@.len() as int) =~= idx@);
    groups
}

// ---- Widths -----------------------------------------------------------------

/// How far the content of member `n` of a group is from that of the first.
pub open spec fn offset_of(widths: Seq<u32>, g: Seq<usize>, gap: int, n: int) -> int
    decreases n,
{
    if n <= 0 {
        0
    } else {
        offset_of(widths, g, gap, n - 1) + widths[g[n - 1] as int] + gap
    }
}

/// The width of a group: its members, the gaps between them, and the room on
/// each side.
pub open spec fn group_width(widths: Seq<u32>, g: Seq<usize>, pad: int, gap: int) -> int {
    offset_of(widths, g, gap, g.len() as int) - (if g.len() > 0 {
        gap
    } else {
        0
    }) + 2 * pad
}

/// The first `n` members of a group whose content begins at `x`.
pub open spec fn members_at(widths: Seq<u32>, g: Seq<usize>, gap: int, x: int, n: int) -> Seq<
    PlacedModule,
>
    decreases n,
{
    if n <= 0 {
        Seq::empty()
    } else {
        members_at(widths, g, gap, x, n - 1).push(
            PlacedModule {
                index: g[n - 1],
                x: (x + offset_of(widths, g, gap, n - 1)) as i64,
                w: widths[g[n - 1] as int],
            },
        )
    }
}

/// A group whose background begins at `x`.
pub open spec fn group_at(widths: Seq<u32>, g: Seq<usize>, pad: int, gap: int, x: int) -> GroupPlace {
    GroupPlace {
        x,
        w: group_width(widths, g, pad, gap),
        members: members_at(widths, g, gap, x + pad, g.len() as int),
    }
}

/// Where the next group of a row begins after the first `n`, if the row begins
/// at `start`.
pub open spec fn row_end(
    widths: Seq<u32>,
    gs: Seq<Seq<usize>>,
    pad: int,
    gap: int,
    start: int,
    n: int,
) -> int
    decreases n,
{
    if n <= 0 {
        start
    } else {
        row_end(widths, gs, pad, gap, start, n - 1) + group_width(widths, gs[n - 1], pad, gap) + gap
    }
}

/// The first `n` groups of a row that begins at `start`.
pub open spec fn row_of(
    widths: Seq<u32>,
    gs: Seq<Seq<usize>>,
    pad: int,
    gap: int,
    start: int,
    n: int,
) -> Seq<GroupPlace>
    decreases n,
{
    if n <= 0 {
        Seq::empty()
    } else {
        row_of(widths, gs, pad, gap, start, n - 1).push(
            group_at(widths, gs[n - 1], pad, gap, row_end(widths, gs, pad, gap, start, n - 1)),
        )
    }
}

/// Where the next group of a row that grows to the left ends after its last `n`
/// groups, if the row ends at `end`.
pub open spec fn back_end(
    widths: Seq<u32>,
    gs: Seq<Seq<usize>>,
    pad: int,
    gap: int,
    end: int,
    n: int,
) -> int
    decreases n,
{
    if n <= 0 {
        end
    } else {
        back_end(widths, gs, pad, gap, end, n - 1) - group_width(
            widths,
            gs[gs.len() - n],
            pad,
            gap,
        ) - gap
    }
}

/// The last `n` groups of a row that ends at `end`, the last one first.
pub open spec fn back_row(
    widths: Seq<u32>,
    gs: Seq<Seq<usize>>,
    pad: int,
    gap: int,
    end: int,
    n: int,
) -> Seq<GroupPlace>
    decreases n,
{
    if n <= 0 {
        Seq::empty()
    } else {
        back_row(widths, gs, pad, gap, end, n - 1).push(
            group_at(
                widths,
                gs[gs.len() - n],
                pad,
                gap,
                back_end(widths, gs, pad, gap, end, n - 1) - group_width(
                    widths,
                    gs[gs.len() - n],
                    pad,
                    gap,
                ),
            ),
        )
    }
}

/// Where the middle row begins: in the middle of the bar, but between the
/// other two.
pub open spec fn middle_start(width: int, total: int, left: int, right: int) -> int {
    let c = geometry::quotient(width - total, 2);
    let c = if c < left {
        left
    } else {
        c
    };
    if c > right - total {
        right - total
    } else {
        c
    }
}

/// Where everything stands on a bar.
#[derive(Debug)]
pub struct BarLayout {
    pub left: Vec<PlacedGroup>,
    /// From the right to the left.
    pub right: Vec<PlacedGroup>,
    /// Empty where it does not fit between the other two.
    pub center: Vec<PlacedGroup>,
    pub content_y: i64,
    pub content_h: i64,
}

/// Where the groups of the left section stand.
pub open spec fn left_row(ms: Seq<BarModule>, widths: Seq<u32>, style: BarStyle) -> Seq<GroupPlace> {
    let gs = grouped(ms, in_section(ms, BarSection::Left, ms.len() as int));
    row_of(widths, gs, style.pad(), style.gap(), style.margin(), gs.len() as int)
}

/// Where the left section ends.
pub open spec fn left_edge(ms: Seq<BarModule>, widths: Seq<u32>, style: BarStyle) -> int {
    let gs = grouped(ms, in_section(ms, BarSection::Left, ms.len() as int));
    row_end(widths, gs, style.pad(), style.gap(), style.margin(), gs.len() as int)
}

/// Where the groups of the right section stand.
pub open spec fn right_row(
    ms: Seq<BarModule>,
    widths: Seq<u32>,
    style: BarStyle,
    width: int,
) -> Seq<GroupPlace> {
    let gs = grouped(ms, in_section(ms, BarSection::Right, ms.len() as int));
    back_row(widths, gs, style.pad(), style.gap(), width - style.margin(), gs.len() as int)
}

/// Where the right section begins.
pub open spec fn right_edge(
    ms: Seq<BarModule>,
    widths: Seq<u32>,
    style: BarStyle,
    width: int,
) -> int {
    let gs = grouped(ms, in_section(ms, BarSection::Right, ms.len() as int));
    back_end(widths, gs, style.pad(), style.gap(), width - style.margin(), gs.len() as int)
}

/// The width of the middle section.
pub open spec fn middle_width(ms: Seq<BarModule>, widths: Seq<u32>, style: BarStyle) -> int {
    let gs = grouped(ms, in_section(ms, BarSection::Center, ms.len() as int));
    row_end(widths, gs, style.pad(), style.gap(), 0, gs.len() as int) - (if gs.len() > 0 {
        style.gap()
    } else {
        0
    })
}

/// Whether the middle section is shown: it is not empty, the settings do not
/// hide it, and there is room for it with some to spare.
pub open spec fn middle_fits(
    ms: Seq<BarModule>,
    widths: Seq<u32>,
    style: BarStyle,
    width: int,
) -> bool {
    &&& in_section(ms, BarSection::Center, ms.len() as int).len() > 0
    &&& !style.hide_center
    &&& right_edge(ms, widths, style, width) - left_edge(ms, widths, style) >= middle_width(
        ms,
        widths,
        style,
    ) + 40
}

/// Where the groups of the middle section stand.
pub open spec fn middle_row(
    ms: Seq<BarModule>,
    widths: Seq<u32>,
    style: BarStyle,
    width: int,
) -> Seq<GroupPlace> {
    let gs = grouped(ms, in_section(ms, BarSection::Center, ms.len() as int));
    if middle_fits(ms, widths, style, width) {
        row_of(
            widths,
            gs,
            style.pad(),
            style.gap(),
            middle_start(
                width,
                middle_width(ms, widths, style),
                left_edge(ms, widths, style),
                right_edge(ms, widths, style, width),
            ),
            gs.len() as int,
        )
    } else {
        Seq::empty()
    }
}

// ---- Placing ----------------------------------------------------------------

/// Whether the indices of all groups are those of modules, and there are not
/// too many.
pub open spec fn groups_ok(gs: Seq<Seq<usize>>, n: int) -> bool {
    &&& gs.len() <= MAX_MODULES
    &&& flattened(gs).len() <= MAX_MODULES
    &&& forall|g: int| 0 <= g < gs.len() ==> (#[trigger] gs[g]).len() <= MAX_MODULES
    &&& forall|g: int, i: int|
        0 <= g < gs.len() && 0 <= i < gs[g].len() ==> #[trigger] gs[g][i] < n
}

proof fn lemma_offset_bound(widths: Seq<u32>, g: Seq<usize>, gap: int, n: int)
    requires
        0 <= n,
        0 <= gap <= 0x7fff_ffff,
    ensures
        0 <= offset_of(widths, g, gap, n) <= n * 0x1_8000_0000,
    decreases n,
{
    if n > 0 {
        lemma_offset_bound(widths, g, gap, n - 1);
    }
}

/// The most that a group is wide.
pub const GROUP_LIMIT: i64 = 0x8_0000_0000_0000;

proof fn lemma_group_width(widths: Seq<u32>, g: Seq<usize>, pad: int, gap: int)
    requires
        g.len() <= MAX_MODULES,
        0 <= pad <= 0x7fff_ffff,
        0 <= gap <= 0x7fff_ffff,
    ensures
        0 <= group_width(widths, g, pad, gap) <= g.len() * 0x1_8000_0000 + 0xffff_fffe,
{
    lemma_offset_bound(widths, g, gap, g.len() as int);
    if g.len() > 0 {
        lemma_offset_bound(widths, g, gap, g.len() - 1);
    }
}

fn measure_group(widths: &Vec<u32>, g: &Vec<usize>, pad: i64, gap: i64) -> (w: i64)
    requires
        g.len() <= MAX_MODULES,
        0 <= pad <= 0x7fff_ffff,
        0 <= gap <= 0x7fff_ffff,
        forall|i: int| 0 <= i < g@.len() ==> #[trigger] g@[i] < widths@.len(),
    ensures
        w == group_width(widths@, g@, pad as int, gap as int),
        0 <= w <= g.len() * 0x1_8000_0000 + 0xffff_fffe,
{
    let mut sum: i64 = 0;
    let mut i: usize = 0;
    while i < g.len()
        invariant
            i <= g.len(),
            g.len() <= MAX_MODULES,
            0 <= gap <= 0x7fff_ffff,
            forall|i: int| 0 <= i < g@.len() ==> #[trigger] g@[i] < widths@.len(),
            sum == offset_of(widths@, g@, gap as int, i as int),
            0 <= sum <= i * 0x1_8000_0000,
        decreases g.len() - i,
    {
        sum = sum + widths[g[i]] as i64 + gap;
        i = i + 1;
    }
    proof {
        lemma_group_width(widths@, g@, pad as int, gap as int);
    }
    if g.len() > 0 {
        sum - gap + 2 * pad
    } else {
        sum + 2 * pad
    }
}

fn place_group(widths: &Vec<u32>, g: &Vec<usize>, pad: i64, gap: i64, x: i64) -> (p: PlacedGroup)
    requires
        g.len() <= MAX_MODULES,
        0 <= pad <= 0x7fff_ffff,
        0 <= gap <= 0x7fff_ffff,
        forall|i: int| 0 <= i < g@.len() ==> #[trigger] g@[i] < widths@.len(),
        -0x40_0000_0000_0000 <= x <= 0x40_0000_0000_0000,
    ensures
        p@ == group_at(widths@, g@, pad as int, gap as int, x as int),
{
    let w: i64 = measure_group(widths, g, pad, gap);
    let mut members: Vec<PlacedModule> = Vec::new();
    let mut off: i64 = 0;
    let mut i: usize = 0;
    while i < g.len()
        invariant
            i <= g.len(),
            g.len() <= MAX_MODULES,
            0 <= pad <= 0x7fff_ffff,
            0 <= gap <= 0x7fff_ffff,
            forall|i: int| 0 <= i < g@.len() ==> #[trigger] g@[i] < widths@.len(),
            -0x40_0000_0000_0000 <= x <= 0x40_0000_0000_0000,
            off == offset_of(widths@, g@, gap as int, i as int),
            0 <= off <= i * 0x1_8000_0000,
            members@ == members_at(widths@, g@, gap as int, x + pad, i as int),
        decreases g.len() - i,
    {
        let cw: u32 = widths[g[i]];
        members.push(PlacedModule { index: g[i], x: x + pad + off, w: cw });
        off = off + cw as i64 + gap;
        i = i + 1;
    }
    PlacedGroup { x, w, members }
}

/// The sum of the numbers of members of the first `n` groups.
pub open spec fn member_count(gs: Seq<Seq<usize>>, n: int) -> int
    decreases n,
{
    if n <= 0 {
        0
    } else {
        member_count(gs, n - 1) + gs[n - 1].len()
    }
}

proof fn lemma_member_count(gs: Seq<Seq<usize>>, n: int)
    requires
        0 <= n <= gs.len(),
    ensures
        member_count(gs, n) == flattened(gs.take(n)).len(),
    decreases n,
{
    if n > 0 {
        lemma_member_count(gs, n - 1);
        assert(gs.take(n).drop_last() =~= gs.take(n - 1));
        assert(gs.take(n).last() == gs[n - 1]);
    }
}

proof fn lemma_count_grows(gs: Seq<Seq<usize>>, a: int, b: int)
    requires
        0 <= a <= b <= gs.len(),
    ensures
        0 <= member_count(gs, a) <= member_count(gs, b),
    decreases b,
{
    if a < b {
        lemma_count_grows(gs, a, b - 1);
    } else if a > 0 {
        lemma_count_grows(gs, a - 1, b - 1);
    }
}

proof fn lemma_row_end_bound(
    widths: Seq<u32>,
    gs: Seq<Seq<usize>>,
    pad: int,
    gap: int,
    start: int,
    n: int,
)
    requires
        0 <= n <= gs.len(),
        groups_ok(gs, widths.len() as int),
        0 <= pad <= 0x7fff_ffff,
        0 <= gap <= 0x7fff_ffff,
    ensures
        start <= row_end(widths, gs, pad, gap, start, n) <= start + member_count(gs, n)
            * 0x1_8000_0000 + n * 0x2_0000_0000,
    decreases n,
{
    if n > 0 {
        lemma_row_end_bound(widths, gs, pad, gap, start, n - 1);
        assert(gs[n - 1].len() <= MAX_MODULES);
        lemma_group_width(widths, gs[n - 1], pad, gap);
        lemma_count_grows(gs, n - 1, n);
    }
}

proof fn lemma_row_limit(gs: Seq<Seq<usize>>, n: int, len: int)
    requires
        0 <= n <= gs.len(),
        groups_ok(gs, len),
    ensures
        0 <= member_count(gs, n) * 0x1_8000_0000 + n * 0x2_0000_0000 <= GROUP_LIMIT,
{
    lemma_member_count(gs, gs.len() as int);
    assert(gs.take(gs.len() as int) =~= gs);
    lemma_count_grows(gs, n, gs.len() as int);
}

fn place_row(
    widths: &Vec<u32>,
    groups: &Vec<Vec<usize>>,
    pad: i64,
    gap: i64,
    start: i64,
) -> (out: (Vec<PlacedGroup>, i64))
    requires
        groups_ok(list_views(groups@), widths@.len() as int),
        0 <= pad <= 0x7fff_ffff,
        0 <= gap <= 0x7fff_ffff,
        -0x20_0000_0000_0000 <= start <= 0x20_0000_0000_0000,
    ensures
        place_views(out.0@) == row_of(
            widths@,
            list_views(groups@),
            pad as int,
            gap as int,
            start as int,
            groups@.len() as int,
        ),
        out.1 == row_end(
            widths@,
            list_views(groups@),
            pad as int,
            gap as int,
            start as int,
            groups@.len() as int,
        ),
        start <= out.1 <= start + GROUP_LIMIT,
{
    let ghost gs = list_views(groups@);
    let mut out: Vec<PlacedGroup> = Vec::new();
    let mut x: i64 = start;
    let mut k: usize = 0;
    assert(place_views(out@) =~= row_of(widths@, gs, pad as int, gap as int, start as int, 0));
    while k < groups.len()
        invariant
            k <= groups.len(),
            gs == list_views(groups@),
            groups_ok(gs, widths@.len() as int),
            0 <= pad <= 0x7fff_ffff,
            0 <= gap <= 0x7fff_ffff,
            -0x20_0000_0000_0000 <= start <= 0x20_0000_0000_0000,
            x == row_end(widths@, gs, pad as int, gap as int, start as int, k as int),
            start <= x <= start + GROUP_LIMIT,
            place_views(out@) == row_of(
                widths@,
                gs,
                pad as int,
                gap as int,
                start as int,
                k as int,
            ),
        decreases groups.len() - k,
    {
        assert(gs[k as int] == groups@[k as int]@);
        assert forall|i: int| 0 <= i < groups@[k as int]@.len() implies #[trigger] groups@[k as int]@[i]
            < widths@.len() by {
            assert(gs[k as int][i] < widths@.len());
        }
        proof {
            lemma_row_end_bound(widths@, gs, pad as int, gap as int, start as int, k + 1);
            lemma_row_limit(gs, k + 1, widths@.len() as int);
        }
        let g: &Vec<usize> = &groups[k];
        let ghost before = place_views(out@);
        let p: PlacedGroup = place_group(widths, g, pad, gap, x);
        let w: i64 = p.w;
        out.push(p);
        assert(place_views(out@) =~= before.push(p@));
        x = x + w + gap;
        k = k + 1;
    }
    (out, x)
}

proof fn lemma_back_end_bound(
    widths: Seq<u32>,
    gs: Seq<Seq<usize>>,
    pad: int,
    gap: int,
    end: int,
    n: int,
)
    requires
        0 <= n <= gs.len(),
        groups_ok(gs, widths.len() as int),
        0 <= pad <= 0x7fff_ffff,
        0 <= gap <= 0x7fff_ffff,
    ensures
        end - (member_count(gs, gs.len() as int) - member_count(gs, gs.len() - n)) * 0x1_8000_0000
            - n * 0x2_0000_0000 <= back_end(widths, gs, pad, gap, end, n) <= end,
    decreases n,
{
    if n > 0 {
        lemma_back_end_bound(widths, gs, pad, gap, end, n - 1);
        let g = gs[gs.len() - n];
        assert(g.len() <= MAX_MODULES);
        lemma_group_width(widths, g, pad, gap);
        assert(member_count(gs, gs.len() - n + 1) == member_count(gs, gs.len() - n) + g.len());
    }
}

fn place_back(
    widths: &Vec<u32>,
    groups: &Vec<Vec<usize>>,
    pad: i64,
    gap: i64,
    end: i64,
) -> (out: (Vec<PlacedGroup>, i64))
    requires
        groups_ok(list_views(groups@), widths@.len() as int),
        0 <= pad <= 0x7fff_ffff,
        0 <= gap <= 0x7fff_ffff,
        -0x20_0000_0000_0000 <= end <= 0x20_0000_0000_0000,
    ensures
        place_views(out.0@) == back_row(
            widths@,
            list_views(groups@),
            pad as int,
            gap as int,
            end as int,
            groups@.len() as int,
        ),
        out.1 == back_end(
            widths@,
            list_views(groups@),
            pad as int,
            gap as int,
            end as int,
            groups@.len() as int,
        ),
        end - GROUP_LIMIT <= out.1 <= end,
{
    let ghost gs = list_views(groups@);
    let mut out: Vec<PlacedGroup> = Vec::new();
    let mut x: i64 = end;
    let mut k: usize = 0;
    assert(gs.len() == groups@.len());
    assert(place_views(out@) =~= back_row(widths@, gs, pad as int, gap as int, end as int, 0));
    while k < groups.len()
        invariant
            k <= groups.len(),
            gs == list_views(groups@),
            gs.len() == groups@.len(),
            groups_ok(gs, widths@.len() as int),
            0 <= pad <= 0x7fff_ffff,
            0 <= gap <= 0x7fff_ffff,
            -0x20_0000_0000_0000 <= end <= 0x20_0000_0000_0000,
            x == back_end(widths@, gs, pad as int, gap as int, end as int, k as int),
            end - GROUP_LIMIT <= x <= end,
            place_views(out@) == back_row(
                widths@,
                gs,
                pad as int,
                gap as int,
                end as int,
                k as int,
            ),
        decreases groups.len() - k,
    {
        let j: usize = groups.len() - 1 - k;
        assert(gs[j as int] == groups@[j as int]@);
        assert forall|i: int| 0 <= i < groups@[j as int]@.len() implies #[trigger] groups@[j as int]@[i]
            < widths@.len() by {
            assert(gs[j as int][i] < widths@.len());
        }
        proof {
            lemma_back_end_bound(widths@, gs, pad as int, gap as int, end as int, k + 1);
            lemma_row_limit(gs, gs.len() as int, widths@.len() as int);
            lemma_count_grows(gs, 0, gs.len() - (k + 1));
        }
        let g: &Vec<usize> = &groups[j];
        let w: i64 = measure_group(widths, g, pad, gap);
        let ghost before = place_views(out@);
        let p: PlacedGroup = place_group(widths, g, pad, gap, x - w);
        out.push(p);
        assert(place_views(out@) =~= before.push(p@));
        x = x - w - gap;
        k = k + 1;
    }
    (out, x)
}

proof fn lemma_groups_ok(ms: Seq<BarModule>, s: BarSection)
    requires
        ms.len() <= MAX_MODULES,
    ensures
        groups_ok(grouped(ms, in_section(ms, s, ms.len() as int)), ms.len() as int),
{
    let idx = in_section(ms, s, ms.len() as int);
    let gs = grouped(ms, idx);
    lemma_in_section(ms, s, ms.len() as int);
    lemma_grouped(ms, idx);
    assert forall|g: int, i: int| 0 <= g < gs.len() && 0 <= i < gs[g].len() implies
        #[trigger] gs[g][i] < ms.len() by {
        lemma_in_flat(gs, g, i);
        let k = choose|k: int| 0 <= k < idx.len() && idx[k] == gs[g][i];
        assert(idx[k] < ms.len());
    }
    assert forall|g: int| 0 <= g < gs.len() implies (#[trigger] gs[g]).len() <= MAX_MODULES by {
        lemma_group_in_flat(gs, g);
    }
}

proof fn lemma_group_in_flat(gs: Seq<Seq<usize>>, g: int)
    requires
        0 <= g < gs.len(),
    ensures
        gs[g].len() <= flattened(gs).len(),
    decreases gs.len(),
{
    if g < gs.len() - 1 {
        lemma_group_in_flat(gs.drop_last(), g);
        assert(gs.drop_last()[g] == gs[g]);
    }
}

proof fn lemma_in_flat(gs: Seq<Seq<usize>>, g: int, i: int)
    requires
        0 <= g < gs.len(),
        0 <= i < gs[g].len(),
    ensures
        exists|k: int| 0 <= k < flattened(gs).len() && flattened(gs)[k] == gs[g][i],
    decreases gs.len(),
{
    let rest = flattened(gs.drop_last());
    if g == gs.len() - 1 {
        assert(flattened(gs)[rest.len() + i] == gs[g][i]);
    } else {
        lemma_in_flat(gs.drop_last(), g, i);
        assert(gs.drop_last()[g] == gs[g]);
        let k = choose|k: int| 0 <= k < rest.len() && rest[k] == gs[g][i];
        assert(flattened(gs)[k] == gs[g][i]);
    }
}

/// Lays out a bar. `widths` are the widths of the contents of the modules.
/// Nothing is shown on a bar without an extent.
pub fn layout_bar(
    modules: &Vec<BarModule>,
    widths: &Vec<u32>,
    style: &BarStyle,
    width: u32,
) -> (out: Option<BarLayout>)
    requires
        widths.len() == modules.len(),
        modules.len() <= MAX_MODULES,
    ensures
        out is Some <==> width > 0 && style.height > 0,
        out matches Some(l) ==> laid_out(l, modules@, widths@, *style, width as int),
{
    if width == 0 || style.height <= 0 {
        return None;
    }
    Some(place_modules(modules, widths, style, width))
}

/// Whether a layout is that of a bar.
pub open spec fn laid_out(
    l: BarLayout,
    ms: Seq<BarModule>,
    widths: Seq<u32>,
    style: BarStyle,
    width: int,
) -> bool {
    let edge_y = at_least_zero(style.edge_padding_y as int);
    let pad_y = if style.pill {
        at_least_zero(style.module_padding_y as int)
    } else {
        0
    };
    &&& place_views(l.left@) == left_row(ms, widths, style)
    &&& place_views(l.right@) == right_row(ms, widths, style, width)
    &&& place_views(l.center@) == middle_row(ms, widths, style, width)
    &&& l.content_y == edge_y + pad_y
    &&& l.content_h == geometry::max(style.height - 2 * edge_y - 2 * pad_y, 1)
}

fn place_modules(
    modules: &Vec<BarModule>,
    widths: &Vec<u32>,
    style: &BarStyle,
    width: u32,
) -> (l: BarLayout)
    requires
        widths.len() == modules.len(),
        modules.len() <= MAX_MODULES,
    ensures
        laid_out(l, modules@, widths@, *style, width as int),
{
    let (left, center, right): (Vec<usize>, Vec<usize>, Vec<usize>) = split_modules(modules);
    proof {
        lemma_in_section(modules@, BarSection::Left, modules@.len() as int);
        lemma_in_section(modules@, BarSection::Center, modules@.len() as int);
        lemma_in_section(modules@, BarSection::Right, modules@.len() as int);
        lemma_groups_ok(modules@, BarSection::Left);
        lemma_groups_ok(modules@, BarSection::Center);
        lemma_groups_ok(modules@, BarSection::Right);
        lemma_grouped(modules@, center@);
    }
    let left_groups: Vec<Vec<usize>> = group_adjacent(modules, &left);
    let center_groups: Vec<Vec<usize>> = group_adjacent(modules, &center);
    let right_groups: Vec<Vec<usize>> = group_adjacent(modules, &right);
    assert(list_views(left_groups@).len() == left_groups@.len());
    assert(list_views(center_groups@).len() == center_groups@.len());
    assert(list_views(right_groups@).len() == right_groups@.len());
    let pad: i64 = if style.pill {
        max_i32(style.module_padding_x, 0) as i64
    } else {
        0
    };
    let gap: i64 = max_i32(style.module_gap, 0) as i64;
    let margin: i64 = max_i32(style.edge_padding_x, 0) as i64;
    let (l, left_x): (Vec<PlacedGroup>, i64) = place_row(widths, &left_groups, pad, gap, margin);
    let (r, right_x): (Vec<PlacedGroup>, i64) = place_back(
        widths,
        &right_groups,
        pad,
        gap,
        width as i64 - margin,
    );
    let mut c: Vec<PlacedGroup> = Vec::new();
    assert(place_views(c@) =~= Seq::<GroupPlace>::empty());
    if center_groups.len() > 0 && !style.hide_center {
        let (_, end): (Vec<PlacedGroup>, i64) = place_row(widths, &center_groups, pad, gap, 0);
        let total: i64 = end - gap;
        if right_x - left_x >= total + 40 {
            let mid: i64 = width as i64 - total;
            let half: i64 = if mid >= 0 {
                mid / 2
            } else {
                -((-mid) / 2)
            };
            let from_left: i64 = if half < left_x {
                left_x
            } else {
                half
            };
            let start: i64 = if from_left > right_x - total {
                right_x - total
            } else {
                from_left
            };
            let (row, _): (Vec<PlacedGroup>, i64) = place_row(
                widths,
                &center_groups,
                pad,
                gap,
                start,
            );
            c = row;
        }
    }
    let pad_y: i64 = if style.pill {
        max_i32(style.module_padding_y, 0) as i64
    } else {
        0
    };
    let edge_y: i64 = max_i32(style.edge_padding_y, 0) as i64;
    let h: i64 = style.height as i64 - edge_y * 2 - pad_y * 2;
    BarLayout {
        left: l,
        right: r,
        center: c,
        content_y: edge_y + pad_y,
        content_h: if h > 1 {
            h
        } else {
            1
        },
    }
}

// ---- Backgrounds ------------------------------------------------------------

/// The looks of the backgrounds of the modules.
#[derive(Clone, Copy, Debug, PartialEq, Eq, Structural)]
pub struct PillStyle {
    pub rounded: i32,
    pub background: Option<u32>,
    pub alpha: u8,
    pub border_px: i32,
    pub border_color: Option<u32>,
}

/// The outline of a background.
#[derive(Clone, Copy, Debug, PartialEq, Eq, Structural)]
pub enum Outline {
    Nothing,
    /// Made of a picture.
    Tiled { width: i32 },
    Plain { color: u32, width: i32 },
}

/// How a background is painted.
#[derive(Clone, Copy, Debug, PartialEq, Eq, Structural)]
pub struct PillPaint {
    pub radius: i32,
    pub fill: u32,
    pub alpha: u8,
    pub outline: Outline,
}

/// How a background is painted. A picture for the outline is at least 2 pixels
/// wide where the settings give no width.
pub fn pill_paint(style: &PillStyle, surface: u32, border: u32, tiled: bool) -> (p: PillPaint)
    ensures
        p.radius == at_least_zero(style.rounded as int),
        p.fill == (match style.background {
            Some(c) => c,
            None => surface,
        }),
        p.alpha == style.alpha,
        p.outline == (if tiled {
            Outline::Tiled {
                width: if style.border_px > 0 {
                    style.border_px
                } else {
                    2
                },
            }
        } else if style.border_px > 0 {
            Outline::Plain {
                color: match style.border_color {
                    Some(c) => c,
                    None => border,
                },
                width: style.border_px,
            }
        } else {
            Outline::Nothing
        }),
{
    let outline: Outline = if tiled {
        Outline::Tiled {
            width: if style.border_px > 0 {
                style.border_px
            } else {
                2
            },
        }
    } else if style.border_px > 0 {
        Outline::Plain {
            color: match style.border_color {
                Some(c) => c,
                None => border,
            },
            width: style.border_px,
        }
    } else {
        Outline::Nothing
    };
    PillPaint {
        radius: max_i32(style.rounded, 0),
        fill: match style.background {
            Some(c) => c,
            None => surface,
        },
        alpha: style.alpha,
        outline,
    }
}

// ---- What holds of every layout ---------------------------------------------

/// The groups of a row stand side by side, with the gap between them.
pub proof fn law_row_side_by_side(
    widths: Seq<u32>,
    gs: Seq<Seq<usize>>,
    pad: int,
    gap: int,
    start: int,
    n: int,
    k: int,
)
    requires
        0 <= k < n - 1,
        n <= gs.len(),
    ensures
        ({
            let row = row_of(widths, gs, pad, gap, start, n);
            row.len() == n && row[k].x + row[k].w + gap == row[k + 1].x
        }),
{
    lemma_row_of(widths, gs, pad, gap, start, n);
}

proof fn lemma_row_of(
    widths: Seq<u32>,
    gs: Seq<Seq<usize>>,
    pad: int,
    gap: int,
    start: int,
    n: int,
)
    requires
        0 <= n <= gs.len(),
    ensures
        row_of(widths, gs, pad, gap, start, n).len() == n,
        forall|k: int|
            0 <= k < n ==> #[trigger] row_of(widths, gs, pad, gap, start, n)[k] == group_at(
                widths,
                gs[k],
                pad,
                gap,
                row_end(widths, gs, pad, gap, start, k),
            ),
    decreases n,
{
    if n > 0 {
        lemma_row_of(widths, gs, pad, gap, start, n - 1);
    }
}

proof fn lemma_row_shift(
    widths: Seq<u32>,
    gs: Seq<Seq<usize>>,
    pad: int,
    gap: int,
    start: int,
    n: int,
)
    requires
        0 <= n <= gs.len(),
    ensures
        row_end(widths, gs, pad, gap, start, n) == start + row_end(widths, gs, pad, gap, 0, n),
    decreases n,
{
    if n > 0 {
        lemma_row_shift(widths, gs, pad, gap, start, n - 1);
    }
}

/// The middle section, where it is shown, stands between the left and the
/// right one.
pub proof fn law_middle_between(
    ms: Seq<BarModule>,
    widths: Seq<u32>,
    style: BarStyle,
    width: int,
    k: int,
)
    requires
        ms.len() <= MAX_MODULES,
        widths.len() == ms.len(),
        0 <= k < middle_row(ms, widths, style, width).len(),
    ensures
        ({
            let g = middle_row(ms, widths, style, width)[k];
            &&& left_edge(ms, widths, style) <= g.x
            &&& g.x + g.w <= right_edge(ms, widths, style, width)
        }),
{
    let gs = grouped(ms, in_section(ms, BarSection::Center, ms.len() as int));
    let pad = style.pad();
    let gap = style.gap();
    let total = middle_width(ms, widths, style);
    let start = middle_start(
        width,
        total,
        left_edge(ms, widths, style),
        right_edge(ms, widths, style, width),
    );
    let n = gs.len() as int;
    lemma_groups_ok(ms, BarSection::Center);
    lemma_row_of(widths, gs, pad, gap, start, n);
    lemma_row_shift(widths, gs, pad, gap, start, n);
    lemma_row_monotone(widths, gs, pad, gap, start, 0, k);
    lemma_row_monotone(widths, gs, pad, gap, start, k + 1, n);
}

proof fn lemma_row_monotone(
    widths: Seq<u32>,
    gs: Seq<Seq<usize>>,
    pad: int,
    gap: int,
    start: int,
    a: int,
    b: int,
)
    requires
        0 <= a <= b <= gs.len(),
        groups_ok(gs, widths.len() as int),
        0 <= pad <= 0x7fff_ffff,
        0 <= gap <= 0x7fff_ffff,
    ensures
        row_end(widths, gs, pad, gap, start, a) <= row_end(widths, gs, pad, gap, start, b),
    decreases b,
{
    if a < b {
        lemma_row_monotone(widths, gs, pad, gap, start, a, b - 1);
        assert(gs[b - 1].len() <= MAX_MODULES);
        lemma_group_width(widths, gs[b - 1], pad, gap);
    }
}

/// The members of a group stand side by side inside its background.
pub proof fn law_members_inside(
    widths: Seq<u32>,
    g: Seq<usize>,
    pad: int,
    gap: int,
    x: int,
    k: int,
)
    requires
        0 <= k < g.len() <= MAX_MODULES,
        0 <= pad <= 0x7fff_ffff,
        0 <= gap <= 0x7fff_ffff,
        -0x40_0000_0000_0000 <= x <= 0x40_0000_0000_0000,
    ensures
        ({
            let p = group_at(widths, g, pad, gap, x);
            &&& p.members.len() == g.len()
            &&& p.x + pad <= p.members[k].x
            &&& p.members[k].x + p.members[k].w + pad <= p.x + p.w
            &&& k + 1 < g.len() ==> p.members[k].x + p.members[k].w + gap == p.members[k + 1].x
        }),
{
    lemma_members_at(widths, g, gap, x + pad, g.len() as int);
    lemma_offset_bound(widths, g, gap, k);
    lemma_offset_bound(widths, g, gap, k + 1);
    lemma_offset_bound(widths, g, gap, g.len() as int);
    lemma_offset_monotone(widths, g, gap, k + 1, g.len() as int);
}

proof fn lemma_members_at(widths: Seq<u32>, g: Seq<usize>, gap: int, x: int, n: int)
    requires
        0 <= n <= g.len(),
    ensures
        members_at(widths, g, gap, x, n).len() == n,
        forall|k: int|
            0 <= k < n ==> #[trigger] members_at(widths, g, gap, x, n)[k] == (PlacedModule {
                index: g[k],
                x: (x + offset_of(widths, g, gap, k)) as i64,
                w: widths[g[k] as int],
            }),
    decreases n,
{
    if n > 0 {
        lemma_members_at(widths, g, gap, x, n - 1);
    }
}

proof fn lemma_offset_monotone(widths: Seq<u32>, g: Seq<usize>, gap: int, a: int, b: int)
    requires
        0 <= a <= b,
        0 <= gap,
    ensures
        offset_of(widths, g, gap, a) <= offset_of(widths, g, gap, b),
    decreases b,
{
    if a < b {
        lemma_offset_monotone(widths, g, gap, a, b - 1);
    }
}

/// A section holds just the modules that belong to it, in their order.
pub proof fn law_section_keeps_its_modules(ms: Seq<BarModule>, s: BarSection, n: int)
    requires
        0 <= n <= ms.len() <= usize::MAX,
    ensures
        ({
            let idx = in_section(ms, s, n);
            &&& forall|k: int|
                0 <= k < idx.len() ==> #[trigger] idx[k] < n && ms[idx[k] as int].section == s
            &&& forall|a: int, b: int|
                0 <= a < b < idx.len() ==> #[trigger] idx[a] < #[trigger] idx[b]
            &&& forall|i: int|
                0 <= i < n && ms[i].section == s ==> #[trigger] idx.contains(i as usize)
        }),
    decreases n,
{
    if n > 0 {
        law_section_keeps_its_modules(ms, s, n - 1);
        let before = in_section(ms, s, n - 1);
        let idx = in_section(ms, s, n);
        assert forall|i: int| 0 <= i < n && ms[i].section == s implies #[trigger] idx.contains(
            i as usize,
        ) by {
            if i < n - 1 {
                assert(before.contains(i as usize));
                let k = choose|k: int| 0 <= k < before.len() && before[k] == i as usize;
                assert(idx[k] == i as usize);
            } else {
                assert(idx[before.len() as int] == i as usize);
            }
        }
    }
}

/// A module joins the group of the one before it where both name the same
/// group; otherwise it starts a group of its own. The groups before stay.
pub proof fn law_neighbours_share_a_group(ms: Seq<BarModule>, idx: Seq<usize>, x: usize)
    ensures
        ({
            let before = grouped(ms, idx);
            let after = grouped(ms, idx.push(x));
            let here = ms[x as int].group;
            let there = ms[idx.last() as int].group;
            let same = here is Some && there is Some && here->0@ == there->0@;
            &&& idx.len() > 0 && same ==> {
                &&& before.len() > 0
                &&& after.len() == before.len()
                &&& after.last() == before.last().push(x)
                &&& after.drop_last() == before.drop_last()
            }
            &&& idx.len() == 0 || !same ==> after == before.push(seq![x])
        }),
{
    let longer = idx.push(x);
    assert(longer.drop_last() =~= idx);
    lemma_grouped(ms, idx);
    if idx.len() > 0 {
        assert(longer[longer.len() - 2] == idx.last());
        if grouped(ms, idx).len() == 0 {
            assert(flattened(grouped(ms, idx)) == idx);
            assert(false);
        }
    }
}

/// A group is as wide as its content and the room on each side: its first
/// member starts, and its last one ends, that room from the edges. Every member
/// is as wide as its module.
pub proof fn law_group_hugs_its_members(
    widths: Seq<u32>,
    g: Seq<usize>,
    pad: int,
    gap: int,
    x: int,
    k: int,
)
    requires
        0 <= k < g.len() <= MAX_MODULES,
        0 <= pad <= 0x7fff_ffff,
        0 <= gap <= 0x7fff_ffff,
        -0x40_0000_0000_0000 <= x <= 0x40_0000_0000_0000,
    ensures
        ({
            let p = group_at(widths, g, pad, gap, x);
            &&& p.x == x
            &&& p.members.len() == g.len()
            &&& p.members[0].x - p.x == pad
            &&& (p.x + p.w) - (p.members.last().x + p.members.last().w) == pad
            &&& p.members[k].index == g[k]
            &&& p.members[k].w == widths[g[k] as int]
        }),
{
    lemma_members_at(widths, g, gap, x + pad, g.len() as int);
    lemma_offset_bound(widths, g, gap, 0);
    lemma_offset_bound(widths, g, gap, g.len() - 1);
    lemma_offset_bound(widths, g, gap, g.len() as int);
}

proof fn lemma_back_row(
    widths: Seq<u32>,
    gs: Seq<Seq<usize>>,
    pad: int,
    gap: int,
    end: int,
    n: int,
)
    requires
        0 <= n <= gs.len(),
    ensures
        back_row(widths, gs, pad, gap, end, n).len() == n,
        forall|k: int|
            0 <= k < n ==> {
                let p = #[trigger] back_row(widths, gs, pad, gap, end, n)[k];
                &&& p.x + p.w == back_end(widths, gs, pad, gap, end, k)
                &&& p.w == group_width(widths, gs[gs.len() - 1 - k], pad, gap)
                &&& p.members.len() == members_at(
                    widths,
                    gs[gs.len() - 1 - k],
                    gap,
                    p.x + pad,
                    gs[gs.len() - 1 - k].len() as int,
                ).len()
            },
    decreases n,
{
    if n > 0 {
        lemma_back_row(widths, gs, pad, gap, end, n - 1);
    }
}

/// The left section starts at the margin of the bar and the right section ends
/// at it; their groups stand side by side with the gap between them.
pub proof fn law_sections_start_at_the_margins(
    ms: Seq<BarModule>,
    widths: Seq<u32>,
    style: BarStyle,
    width: int,
    k: int,
)
    requires
        0 <= style.edge_padding_x,
        0 <= style.module_gap,
        0 <= k,
    ensures
        ({
            let l = left_row(ms, widths, style);
            let r = right_row(ms, widths, style, width);
            &&& l.len() > 0 ==> l[0].x == style.edge_padding_x
            &&& r.len() > 0 ==> r[0].x + r[0].w == width - style.edge_padding_x
            &&& k + 1 < l.len() ==> l[k + 1].x == l[k].x + l[k].w + style.module_gap
            &&& k + 1 < r.len() ==> r[k].x == r[k + 1].x + r[k + 1].w + style.module_gap
        }),
{
    let pad = style.pad();
    let gap = style.gap();
    let ls = grouped(ms, in_section(ms, BarSection::Left, ms.len() as int));
    let rs = grouped(ms, in_section(ms, BarSection::Right, ms.len() as int));
    lemma_row_of(widths, ls, pad, gap, style.margin(), ls.len() as int);
    lemma_back_row(widths, rs, pad, gap, width - style.margin(), rs.len() as int);
}

/// The middle section stands in the middle of the bar, to a pixel, where the
/// other two leave the room for that.
pub proof fn law_middle_is_in_the_middle(
    ms: Seq<BarModule>,
    widths: Seq<u32>,
    style: BarStyle,
    width: int,
)
    requires
        ms.len() <= MAX_MODULES,
        widths.len() == ms.len(),
        middle_row(ms, widths, style, width).len() > 0,
        ({
            let row = middle_row(ms, widths, style, width);
            let total = row.last().x + row.last().w - row[0].x;
            &&& total <= width
            &&& 2 * left_edge(ms, widths, style) <= width - total - 1
            &&& width + total <= 2 * right_edge(ms, widths, style, width)
        }),
    ensures
        ({
            let row = middle_row(ms, widths, style, width);
            let left = row[0].x;
            let right = width - (row.last().x + row.last().w);
            -1 <= left - right <= 1
        }),
{
    let gs = grouped(ms, in_section(ms, BarSection::Center, ms.len() as int));
    let pad = style.pad();
    let gap = style.gap();
    let total = middle_width(ms, widths, style);
    let start = middle_start(
        width,
        total,
        left_edge(ms, widths, style),
        right_edge(ms, widths, style, width),
    );
    let n = gs.len() as int;
    lemma_row_of(widths, gs, pad, gap, start, n);
    lemma_row_shift(widths, gs, pad, gap, start, n);
}

/// The middle section is hidden where the settings say so, where it is empty,
/// and where the other two leave less than forty pixels beside it.
pub proof fn law_middle_needs_room(
    ms: Seq<BarModule>,
    widths: Seq<u32>,
    style: BarStyle,
    width: int,
)
    requires
        style.hide_center || (forall|i: int|
            0 <= i < ms.len() ==> (#[trigger] ms[i]).section != BarSection::Center) || right_edge(
            ms,
            widths,
            style,
            width,
        ) - left_edge(ms, widths, style) < middle_width(ms, widths, style) + 40,
        ms.len() <= usize::MAX,
    ensures
        middle_row(ms, widths, style, width).len() == 0,
{
    law_section_keeps_its_modules(ms, BarSection::Center, ms.len() as int);
    let idx = in_section(ms, BarSection::Center, ms.len() as int);
    if idx.len() > 0 {
        assert(ms[idx[0] as int].section == BarSection::Center);
    }
}

} // verus!
