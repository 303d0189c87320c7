//! Monitor layouts.
//!
//! The page gives a layout as a flat list of five numbers per monitor: left, top,
//! width, height, and whether it is the primary one. The desktop is the box from the
//! origin that holds all monitors.

use ironrdp::displaycontrol::pdu::MonitorLayoutEntry;
use vstd::prelude::*;

verus! {

/// A monitor on the desktop. Its edges lie inside it.
#[derive(Debug, Clone, Copy, PartialEq, Eq)]
pub struct Monitor {
    pub left: i32,
    pub top: i32,
    pub right: i32,
    pub bottom: i32,
    pub primary: bool,
}

/// A monitor as the display control channel takes it.
#[derive(Debug, Clone, Copy, PartialEq, Eq)]
pub struct DcMonitor {
    pub primary: bool,
    pub left: i32,
    pub top: i32,
    pub width: u32,
    pub height: u32,
}

/// How many whole monitors a flat list holds.
pub open spec fn monitor_count(flat: Seq<i32>) -> nat {
    (flat.len() / 5) as nat
}

/// Monitor `i` of a flat list.
pub open spec fn monitor_of(flat: Seq<i32>, i: int) -> Monitor {
    Monitor {
        left: flat[5 * i],
        top: flat[5 * i + 1],
        right: (flat[5 * i] + flat[5 * i + 2] - 1) as i32,
        bottom: (flat[5 * i + 1] + flat[5 * i + 3] - 1) as i32,
        primary: flat[5 * i + 4] != 0,
    }
}

/// The monitors of a flat list; what does not make a whole monitor is left out.
pub open spec fn layout_of(flat: Seq<i32>) -> Seq<Monitor> {
    Seq::new(monitor_count(flat), |i: int| monitor_of(flat, i))
}

/// Whether two numbers add up to a number whose predecessor is one too.
pub open spec fn edge_fits(start: i32, size: i32) -> bool {
    i32::MIN < start + size <= i32::MAX
}

/// Whether the edges of monitor `i` are machine numbers.
pub open spec fn monitor_fits(flat: Seq<i32>, i: int) -> bool {
    edge_fits(flat[5 * i], flat[5 * i + 2]) && edge_fits(flat[5 * i + 1], flat[5 * i + 3])
}

/// Whether the edges of all monitors are machine numbers.
pub open spec fn layout_fits(flat: Seq<i32>) -> bool {
    forall|i: int| 0 <= i < monitor_count(flat) ==> #[trigger] monitor_fits(flat, i)
}

fn add_fits(start: i32, size: i32) -> (fits: bool)
    ensures
        fits == edge_fits(start, size),
{
    let sum: i64 = start as i64 + size as i64;
    (i32::MIN as i64) < sum && sum <= (i32::MAX as i64)
}

/// Whether the edges of all monitors of a flat list are machine numbers.
pub fn layout_in_range(flat: &[i32]) -> (fits: bool)
    ensures
        fits == layout_fits(flat@),
{
    let n: usize = flat.len() / 5;
    let mut i: usize = 0;
    while i < n
        invariant
            i <= n,
            n == monitor_count(flat@),
            5 * n <= flat@.len() <= usize::MAX,
            forall|j: int| 0 <= j < i ==> #[trigger] monitor_fits(flat@, j),
        decreases n - i,
    {
        let at: usize = 5 * i;
        let fits = add_fits(flat[at], flat[at + 2]) && add_fits(flat[at + 1], flat[at + 3]);
        assert(fits == monitor_fits(flat@, i as int));
        if !fits {
            return false;
        }
        i = i + 1;
    }
    true
}

/// The monitors of a flat list.
pub fn parse_monitor_layout(flat: &[i32]) -> (monitors: Vec<Monitor>)
    requires
        layout_fits(flat@),
    ensures
        monitors@ == layout_of(flat@),
{
    let n: usize = flat.len() / 5;
    let mut monitors: Vec<Monitor> = Vec::new();
    let mut i: usize = 0;
    while i < n
        invariant
            i <= n,
            n == monitor_count(flat@),
            5 * n <= flat@.len() <= usize::MAX,
            layout_fits(flat@),
            monitors@ == layout_of(flat@).take(i as int),
        decreases n - i,
    {
        let at: usize = 5 * i;
        assert(monitor_fits(flat@, i as int));
        monitors.push(
            Monitor {
                left: flat[at],
                top: flat[at + 1],
                right: flat[at] + flat[at + 2] - 1,
                bottom: flat[at + 1] + flat[at + 3] - 1,
                primary: flat[at + 4] != 0,
            },
        );
        i = i + 1;
        assert(monitors@ =~= layout_of(flat@).take(i as int));
    }
    assert(monitors@ =~= layout_of(flat@));
    monitors
}

/// The largest of some numbers, 0 where there is none.
pub open spec fn largest(numbers: Seq<i32>) -> i32
    decreases numbers.len(),
{
    if numbers.len() == 0 {
        0
    } else if numbers.len() == 1 {
        numbers[0]
    } else {
        let before = largest(numbers.drop_last());
        if before < numbers.last() {
            numbers.last()
        } else {
            before
        }
    }
}

/// The right edges of monitors.
pub open spec fn rights(monitors: Seq<Monitor>) -> Seq<i32> {
    monitors.map_values(|m: Monitor| m.right)
}

/// The bottom edges of monitors.
pub open spec fn bottoms(monitors: Seq<Monitor>) -> Seq<i32> {
    monitors.map_values(|m: Monitor| m.bottom)
}

/// A size as the protocol takes it: from 1 to 65535.
pub open spec fn size_of(size: int) -> u16 {
    if size < 1 {
        1
    } else if size > u16::MAX {
        u16::MAX
    } else {
        size as u16
    }
}

/// The size of the box from the origin that holds all monitors.
pub open spec fn desktop_size(monitors: Seq<Monitor>) -> (u16, u16) {
    (size_of(largest(rights(monitors)) + 1), size_of(largest(bottoms(monitors)) + 1))
}

/// Whether no monitor reaches the last machine number.
pub open spec fn edges_countable(monitors: Seq<Monitor>) -> bool {
    forall|i: int| 0 <= i < monitors.len() ==> (#[trigger] monitors[i]).right < i32::MAX && monitors[i].bottom < i32::MAX
}

proof fn lemma_largest(numbers: Seq<i32>)
    ensures
        forall|i: int| 0 <= i < numbers.len() ==> numbers[i] <= largest(numbers),
        numbers.len() > 0 ==> exists|i: int| 0 <= i < numbers.len() && numbers[i] == largest(numbers),
    decreases numbers.len(),
{
    if numbers.len() > 1 {
        let front = numbers.drop_last();
        lemma_largest(front);
        assert forall|i: int| 0 <= i < numbers.len() implies numbers[i] <= largest(numbers) by {
            if i < front.len() {
                assert(front[i] == numbers[i]);
            }
        }
        let k = choose|k: int| 0 <= k < front.len() && front[k] == largest(front);
        assert(numbers[k] == front[k]);
        assert(numbers[numbers.len() - 1] == numbers.last());
    } else if numbers.len() == 1 {
        assert(numbers[0] == largest(numbers));
    }
}

fn clamped(size: i32) -> (out: u16)
    ensures
        out == size_of(size as int),
{
    if size < 1 {
        1
    } else if size > 65535 {
        65535
    } else {
        size as u16
    }
}

/// The size of the box from the origin that holds all monitors.
pub fn combined_desktop_size(monitors: &[Monitor]) -> (size: (u16, u16))
    requires
        edges_countable(monitors@),
    ensures
        size == desktop_size(monitors@),
{
    let mut right: i32 = 0;
    let mut bottom: i32 = 0;
    let mut i: usize = 0;
    let ghost xs = rights(monitors@);
    let ghost ys = bottoms(monitors@);
    assert(xs.take(0).len() == 0);
    while i < monitors.len()
        invariant
            i <= monitors@.len(),
            xs == rights(monitors@),
            ys == bottoms(monitors@),
            right == largest(xs.take(i as int)),
            bottom == largest(ys.take(i as int)),
        decreases monitors@.len() - i,
    {
        proof {
            assert(xs.take(i + 1).drop_last() =~= xs.take(i as int));
            assert(ys.take(i + 1).drop_last() =~= ys.take(i as int));
            assert(xs.take(i + 1).last() == monitors@[i as int].right);
            assert(ys.take(i + 1).last() == monitors@[i as int].bottom);
        }
        if i == 0 || right < monitors[i].right {
            right = monitors[i].right;
        }
        if i == 0 || bottom < monitors[i].bottom {
            bottom = monitors[i].bottom;
        }
        i = i + 1;
    }
    proof {
        assert(xs.take(i as int) =~= xs);
        assert(ys.take(i as int) =~= ys);
        lemma_largest(xs);
        lemma_largest(ys);
        if monitors@.len() > 0 {
            let k = choose|k: int| 0 <= k < xs.len() && xs[k] == largest(xs);
            assert(monitors@[k].right == xs[k]);
            let l = choose|l: int| 0 <= l < ys.len() && ys[l] == largest(ys);
            assert(monitors@[l].bottom == ys[l]);
        }
    }
    (clamped(right + 1), clamped(bottom + 1))
}

/// Where the first primary monitor stands.
pub open spec fn primary_index(monitors: Seq<Monitor>) -> Option<int>
    decreases monitors.len(),
{
    if monitors.len() == 0 {
        None
    } else {
        match primary_index(monitors.drop_last()) {
            Some(i) => Some(i),
            None => if monitors.last().primary {
                Some(monitors.len() - 1)
            } else {
                None
            },
        }
    }
}

/// The monitor that the page itself shows: the first primary one, or else the first.
pub open spec fn main_monitor(monitors: Seq<Monitor>) -> Option<Monitor> {
    match primary_index(monitors) {
        Some(i) => Some(monitors[i]),
        None => if monitors.len() > 0 {
            Some(monitors[0])
        } else {
            None
        },
    }
}

/// A coordinate as the protocol takes it: from 0 to 65535.
pub open spec fn coordinate_of(at: i32) -> u16 {
    if at < 0 {
        0
    } else if at > u16::MAX {
        u16::MAX
    } else {
        at as u16
    }
}

/// The rectangle of a monitor: left, top, width, height.
pub open spec fn rect_of(m: Monitor) -> (u16, u16, u16, u16) {
    (coordinate_of(m.left), coordinate_of(m.top), size_of(m.right - m.left + 1), size_of(m.bottom - m.top + 1))
}

/// Whether the size of a monitor is a machine number.
pub open spec fn rect_fits(m: Monitor) -> bool {
    &&& i32::MIN <= m.right - m.left < i32::MAX
    &&& i32::MIN <= m.bottom - m.top < i32::MAX
}

/// The rectangle that the page's own canvas shows.
pub open spec fn surface_rect(monitors: Seq<Monitor>, combined_w: u16, combined_h: u16) -> (u16, u16, u16, u16) {
    match main_monitor(monitors) {
        Some(m) => rect_of(m),
        None => (0, 0, combined_w, combined_h),
    }
}

proof fn lemma_primary_index(monitors: Seq<Monitor>)
    ensures
        primary_index(monitors) is Some ==> 0 <= primary_index(monitors)->0 < monitors.len(),
    decreases monitors.len(),
{
    if monitors.len() > 0 {
        lemma_primary_index(monitors.drop_last());
    }
}

proof fn lemma_primary_prefix(monitors: Seq<Monitor>, n: int)
    requires
        0 <= n <= monitors.len(),
        primary_index(monitors.take(n)) is Some,
    ensures
        primary_index(monitors) == primary_index(monitors.take(n)),
    decreases monitors.len() - n,
{
    if n < monitors.len() {
        assert(monitors.take(n + 1).drop_last() =~= monitors.take(n));
        lemma_primary_prefix(monitors, n + 1);
    } else {
        assert(monitors.take(n) =~= monitors);
    }
}

/// The monitor that the page itself shows.
pub fn find_main_monitor(monitors: &[Monitor]) -> (found: Option<Monitor>)
    ensures
        found == main_monitor(monitors@),
{
    let mut i: usize = 0;
    assert(monitors@.take(0).len() == 0);
    while i < monitors.len()
        invariant
            i <= monitors@.len(),
            primary_index(monitors@.take(i as int)) is None,
        decreases monitors@.len() - i,
    {
        proof {
            assert(monitors@.take(i + 1).drop_last() =~= monitors@.take(i as int));
            assert(monitors@.take(i + 1).last() == monitors@[i as int]);
        }
        if monitors[i].primary {
            proof {
                lemma_primary_prefix(monitors@, i + 1);
            }
            return Some(monitors[i]);
        }
        i = i + 1;
    }
    assert(monitors@.take(i as int) =~= monitors@);
    if monitors.len() > 0 {
        Some(monitors[0])
    } else {
        None
    }
}

fn coordinate(at: i32) -> (out: u16)
    ensures
        out == coordinate_of(at),
{
    if at < 0 {
        0
    } else if at > 65535 {
        65535
    } else {
        at as u16
    }
}

/// The rectangle that the page's own canvas shows: left, top, width, height.
pub fn primary_surface_rect(monitors: &[Monitor], combined_w: u16, combined_h: u16) -> (rect: (u16, u16, u16, u16))
    requires
        main_monitor(monitors@) matches Some(m) ==> rect_fits(m),
    ensures
        rect == surface_rect(monitors@, combined_w, combined_h),
{
    match find_main_monitor(monitors) {
        Some(m) => {
            let ox: u16 = coordinate(m.left);
            let oy: u16 = coordinate(m.top);
            let w: u16 = clamped(m.right - m.left + 1);
            let h: u16 = clamped(m.bottom - m.top + 1);
            (ox, oy, w, h)
        }
        None => (0, 0, combined_w, combined_h),
    }
}

/// A number brought into the range of monitor sizes.
pub open spec fn constrained(size: int) -> u32 {
    if size < 200 {
        200
    } else if size > 8192 {
        8192
    } else {
        size as u32
    }
}

/// `MonitorLayoutEntry::adjust_display_size` of `ironrdp-displaycontrol`. Claimed: an
/// odd width loses one, then both sizes are brought into the range of monitor sizes.
#[verifier::external_body]
fn adjust_display_size(width: u32, height: u32) -> (size: (u32, u32))
    ensures
        size == (constrained(width - width % 2), constrained(height as int)),
{
    MonitorLayoutEntry::adjust_display_size(width, height)
}

/// Whether a size is one that a monitor may have.
pub open spec fn size_allowed(width: u32, height: u32) -> bool {
    200 <= width - width % 2 <= 8192 && 200 <= height <= 8192
}

/// `MonitorLayoutEntry::new_primary` of `ironrdp-displaycontrol`, then `with_position`.
/// Claimed: a primary monitor must have a size that is allowed and stand at the origin;
/// an odd width loses one.
#[verifier::external_body]
fn primary_entry(width: u32, height: u32, left: i32, top: i32) -> (entry: Option<DcMonitor>)
    ensures
        entry == (if size_allowed(width, height) && left == 0 && top == 0 {
            Some(DcMonitor { primary: true, left, top, width: (width - width % 2) as u32, height })
        } else {
            None
        }),
{
    let entry = MonitorLayoutEntry::new_primary(width, height).ok()?.with_position(left, top).ok()?;
    let (width, height) = entry.dimensions();
    let (left, top) = entry.position()?;
    Some(DcMonitor { primary: entry.is_primary(), left, top, width, height })
}

/// `MonitorLayoutEntry::new_secondary` of `ironrdp-displaycontrol`, then `with_position`.
/// Claimed: a monitor that is not the primary one must have a size that is allowed; an
/// odd width loses one.
#[verifier::external_body]
fn secondary_entry(width: u32, height: u32, left: i32, top: i32) -> (entry: Option<DcMonitor>)
    ensures
        entry == (if size_allowed(width, height) {
            Some(DcMonitor { primary: false, left, top, width: (width - width % 2) as u32, height })
        } else {
            None
        }),
{
    let entry = MonitorLayoutEntry::new_secondary(width, height).ok()?.with_position(left, top).ok()?;
    let (width, height) = entry.dimensions();
    let (left, top) = entry.position()?;
    Some(DcMonitor { primary: entry.is_primary(), left, top, width, height })
}

/// A number, or 0 where it is negative.
pub open spec fn not_negative(n: i32) -> int {
    if n < 0 {
        0
    } else {
        n as int
    }
}

/// Monitor `i` of a flat list as the display control channel takes it. A primary
/// monitor that does not stand at the origin is none.
pub open spec fn dc_monitor_of(flat: Seq<i32>, i: int) -> Option<DcMonitor> {
    let (left, top) = (flat[5 * i], flat[5 * i + 1]);
    let width = not_negative(flat[5 * i + 2]);
    let primary = flat[5 * i + 4] != 0;
    if primary && (left != 0 || top != 0) {
        None
    } else {
        Some(
            DcMonitor {
                primary,
                left,
                top,
                width: constrained(width - width % 2),
                height: constrained(not_negative(flat[5 * i + 3])),
            },
        )
    }
}

/// The first `n` monitors of a flat list as the display control channel takes them.
pub open spec fn dc_layout(flat: Seq<i32>, n: int) -> Seq<DcMonitor>
    decreases n,
{
    if n <= 0 {
        seq![]
    } else {
        match dc_monitor_of(flat, n - 1) {
            Some(m) => dc_layout(flat, n - 1).push(m),
            None => dc_layout(flat, n - 1),
        }
    }
}

fn unsigned(n: i32) -> (out: u32)
    ensures
        out == not_negative(n),
{
    if n < 0 {
        0
    } else {
        n as u32
    }
}

/// The monitors of a flat list as the display control channel takes them; those that
/// it would not take are left out.
pub fn parse_dc_monitor_layout(flat: &[i32]) -> (entries: Vec<DcMonitor>)
    ensures
        entries@ == dc_layout(flat@, monitor_count(flat@) as int),
{
    let n: usize = flat.len() / 5;
    let mut entries: Vec<DcMonitor> = Vec::new();
    let mut i: usize = 0;
    while i < n
        invariant
            i <= n,
            n == monitor_count(flat@),
            5 * n <= flat@.len() <= usize::MAX,
            entries@ == dc_layout(flat@, i as int),
        decreases n - i,
    {
        let at: usize = 5 * i;
        let (width, height): (u32, u32) = adjust_display_size(unsigned(flat[at + 2]), unsigned(flat[at + 3]));
        let entry = if flat[at + 4] != 0 {
            primary_entry(width, height, flat[at], flat[at + 1])
        } else {
            secondary_entry(width, height, flat[at], flat[at + 1])
        };
        match entry {
            Some(m) => entries.push(m),
            None => {}
        }
        i = i + 1;
    }
    entries
}

/// What a layout makes of the desktop: its size and what the page's own canvas shows.
pub open spec fn desktop_of(flat: Seq<i32>, width: u16, height: u16) -> ((u16, u16), (u16, u16, u16, u16)) {
    let monitors = layout_of(flat);
    let size = if monitors.len() == 0 {
        (width, height)
    } else {
        desktop_size(monitors)
    };
    (size, surface_rect(monitors, size.0, size.1))
}

/// Whether all that a layout needs can be counted.
pub open spec fn layout_usable(flat: Seq<i32>) -> bool {
    &&& layout_fits(flat)
    &&& edges_countable(layout_of(flat))
    &&& main_monitor(layout_of(flat)) matches Some(m) ==> rect_fits(m)
}

fn countable(monitors: &[Monitor]) -> (fits: bool)
    ensures
        fits == edges_countable(monitors@),
{
    let mut i: usize = 0;
    while i < monitors.len()
        invariant
            i <= monitors@.len(),
            forall|j: int|
                0 <= j < i ==> (#[trigger] monitors@[j]).right < i32::MAX && monitors@[j].bottom < i32::MAX,
        decreases monitors@.len() - i,
    {
        if monitors[i].right == i32::MAX || monitors[i].bottom == i32::MAX {
            return false;
        }
        i = i + 1;
    }
    true
}

fn difference_fits(end: i32, start: i32) -> (fits: bool)
    ensures
        fits == (i32::MIN <= end - start < i32::MAX),
{
    let size: i64 = end as i64 - start as i64;
    (i32::MIN as i64) <= size && size < (i32::MAX as i64)
}

/// Whether all that a layout needs can be counted.
pub fn layout_is_usable(flat: &[i32]) -> (usable: bool)
    ensures
        usable == layout_usable(flat@),
{
    if !layout_in_range(flat) {
        return false;
    }
    let monitors = parse_monitor_layout(flat);
    if !countable(monitors.as_slice()) {
        return false;
    }
    match find_main_monitor(monitors.as_slice()) {
        Some(m) => difference_fits(m.right, m.left) && difference_fits(m.bottom, m.top),
        None => true,
    }
}

/// The size of the desktop, and what the page's own canvas shows of it. Without a
/// layout both are as asked for.
pub fn desktop_for(flat: &[i32], width: u16, height: u16) -> (desktop: ((u16, u16), (u16, u16, u16, u16)))
    requires
        layout_usable(flat@),
    ensures
        desktop == desktop_of(flat@, width, height),
{
    let monitors = parse_monitor_layout(flat);
    let size: (u16, u16) = if monitors.len() == 0 {
        (width, height)
    } else {
        combined_desktop_size(monitors.as_slice())
    };
    (size, primary_surface_rect(monitors.as_slice(), size.0, size.1))
}

/// The desktop covers every monitor, as far as its size can be written in 16 bits.
pub proof fn law_desktop_covers_monitors(monitors: Seq<Monitor>, i: int)
    requires
        0 <= i < monitors.len(),
    ensures
        monitors[i].right < desktop_size(monitors).0 || desktop_size(monitors).0 == u16::MAX,
        monitors[i].bottom < desktop_size(monitors).1 || desktop_size(monitors).1 == u16::MAX,
{
    lemma_largest(rights(monitors));
    lemma_largest(bottoms(monitors));
    assert(rights(monitors)[i] == monitors[i].right);
    assert(bottoms(monitors)[i] == monitors[i].bottom);
}

/// The edges of a monitor lie inside it: a monitor of 1920 columns at 0 ends at 1919,
/// and its rectangle is as wide as asked for.
pub proof fn law_rect_has_the_size_asked_for(flat: Seq<i32>, i: int)
    requires
        0 <= i < monitor_count(flat),
        layout_fits(flat),
        1 <= flat[5 * i + 2] <= u16::MAX,
        1 <= flat[5 * i + 3] <= u16::MAX,
    ensures
        rect_of(layout_of(flat)[i]).2 == flat[5 * i + 2],
        rect_of(layout_of(flat)[i]).3 == flat[5 * i + 3],
        layout_of(flat)[i].right == flat[5 * i] + flat[5 * i + 2] - 1,
        layout_of(flat)[i].bottom == flat[5 * i + 1] + flat[5 * i + 3] - 1,
{
    assert(monitor_fits(flat, i));
}

/// What the display control channel is given keeps to the protocol: widths are even,
/// sizes are in range, and a primary monitor stands at the origin.
pub proof fn law_display_control_is_well_formed(flat: Seq<i32>, n: int, k: int)
    requires
        0 <= k < dc_layout(flat, n).len(),
    ensures
        200 <= dc_layout(flat, n)[k].width <= 8192,
        200 <= dc_layout(flat, n)[k].height <= 8192,
        dc_layout(flat, n)[k].width % 2 == 0,
        dc_layout(flat, n)[k].primary ==> dc_layout(flat, n)[k].left == 0 && dc_layout(flat, n)[k].top == 0,
    decreases n,
{
    if n > 0 && k < dc_layout(flat, n - 1).len() {
        law_display_control_is_well_formed(flat, n - 1, k);
    }
}

/// What the display control channel is given of a flat list, monitor by monitor: one whose
/// width is even and whose sizes are both from 200 to 8192 is given as it stands in the
/// list, an odd width is one less, a size outside that range becomes the nearer end of it
/// (an odd width of 201 is 200, one of 8193 is 8192), and a primary monitor away from the
/// origin is left out. Those that are given keep their order.
pub proof fn law_display_control_is_given_the_list(flat: Seq<i32>, n: int)
    requires
        0 <= n < monitor_count(flat),
    ensures
        ({
            let before = dc_layout(flat, n);
            let after = dc_layout(flat, n + 1);
            let (left, top, w, h) = (flat[5 * n], flat[5 * n + 1], flat[5 * n + 2], flat[5 * n + 3]);
            let primary = flat[5 * n + 4] != 0;
            &&& primary && !(left == 0 && top == 0) ==> after == before
            &&& !primary || (left == 0 && top == 0) ==> {
                let m = after.last();
                &&& after.len() == before.len() + 1
                &&& after.drop_last() == before
                &&& m.primary == primary
                &&& m.left == left && m.top == top
                &&& 200 <= w <= 8192 && w % 2 == 0 ==> m.width == w
                &&& 200 <= w <= 8193 && w % 2 == 1 ==> m.width == w - 1
                &&& w < 200 ==> m.width == 200
                &&& w > 8193 ==> m.width == 8192
                &&& 200 <= h <= 8192 ==> m.height == h
                &&& h < 200 ==> m.height == 200
                &&& h > 8192 ==> m.height == 8192
            }
        }),
        dc_layout(flat, 0).len() == 0,
{
    assert(dc_layout(flat, n + 1).drop_last() =~= dc_layout(flat, n) || dc_layout(flat, n + 1) == dc_layout(flat, n));
}

/// The monitors of a layout are those of the flat list, one for every five numbers: left,
/// top, width, height, primary. A width and a height are the number of columns and rows
/// from one edge to the other, both counted.
pub proof fn law_layout_is_the_list(flat: Seq<i32>, i: int)
    requires
        layout_fits(flat),
        0 <= i,
        5 * i + 5 <= flat.len(),
    ensures
        5 * layout_of(flat).len() <= flat.len() < 5 * layout_of(flat).len() + 5,
        i < layout_of(flat).len(),
        layout_of(flat)[i].left == flat[5 * i],
        layout_of(flat)[i].top == flat[5 * i + 1],
        layout_of(flat)[i].right - layout_of(flat)[i].left + 1 == flat[5 * i + 2],
        layout_of(flat)[i].bottom - layout_of(flat)[i].top + 1 == flat[5 * i + 3],
        layout_of(flat)[i].primary == (flat[5 * i + 4] != 0),
{
    assert(monitor_fits(flat, i));
}

/// The desktop is no larger than it must be: some monitor reaches its right edge and some
/// its bottom edge, where a monitor reaches beyond the first column and row at all and the
/// size can be written in 16 bits.
pub proof fn law_desktop_is_tight(monitors: Seq<Monitor>)
    requires
        monitors.len() > 0,
    ensures
        desktop_size(monitors).0 >= 1,
        desktop_size(monitors).1 >= 1,
        desktop_size(monitors).0 > 1 ==> exists|i: int|
            0 <= i < monitors.len() && (#[trigger] monitors[i]).right + 1 >= desktop_size(monitors).0,
        desktop_size(monitors).1 > 1 ==> exists|i: int|
            0 <= i < monitors.len() && (#[trigger] monitors[i]).bottom + 1 >= desktop_size(monitors).1,
{
    let xs = rights(monitors);
    let ys = bottoms(monitors);
    lemma_largest(xs);
    lemma_largest(ys);
    let k = choose|k: int| 0 <= k < xs.len() && xs[k] == largest(xs);
    assert(monitors[k].right == xs[k]);
    let l = choose|l: int| 0 <= l < ys.len() && ys[l] == largest(ys);
    assert(monitors[l].bottom == ys[l]);
}

/// The page's own canvas shows the first primary monitor, or the first one where none is
/// primary: with its own left and top edge and its own size, as far as they can be written
/// in 16 bits. Without monitors it shows all that was asked for.
pub proof fn law_canvas_shows_the_first_primary(monitors: Seq<Monitor>, i: int, w: u16, h: u16)
    requires
        0 <= i < monitors.len(),
        0 <= monitors[i].left <= u16::MAX,
        0 <= monitors[i].top <= u16::MAX,
        0 <= monitors[i].right - monitors[i].left < u16::MAX,
        0 <= monitors[i].bottom - monitors[i].top < u16::MAX,
        monitors[i].primary || i == 0,
        forall|j: int| 0 <= j < i ==> !(#[trigger] monitors[j]).primary,
        !monitors[i].primary ==> forall|j: int| 0 <= j < monitors.len() ==> !(#[trigger] monitors[j]).primary,
    ensures
        surface_rect(Seq::empty(), w, h) == (0u16, 0u16, w, h),
        surface_rect(monitors, w, h).0 == monitors[i].left,
        surface_rect(monitors, w, h).1 == monitors[i].top,
        surface_rect(monitors, w, h).2 == monitors[i].right - monitors[i].left + 1,
        surface_rect(monitors, w, h).3 == monitors[i].bottom - monitors[i].top + 1,
{
    lemma_first_primary(monitors);
    lemma_primary_index(monitors);
    if monitors[i].primary {
        assert(primary_index(monitors) == Some(i));
    } else {
        assert(primary_index(monitors) is None);
    }
}

proof fn lemma_first_primary(monitors: Seq<Monitor>)
    ensures
        match primary_index(monitors) {
            Some(k) => 0 <= k < monitors.len() && monitors[k].primary && forall|j: int|
                0 <= j < k ==> !(#[trigger] monitors[j]).primary,
            None => forall|j: int| 0 <= j < monitors.len() ==> !(#[trigger] monitors[j]).primary,
        },
    decreases monitors.len(),
{
    if monitors.len() > 0 {
        let front = monitors.drop_last();
        lemma_first_primary(front);
        assert forall|j: int| 0 <= j < front.len() implies #[trigger] monitors[j] == front[j] by {}
        assert(monitors[monitors.len() - 1] == monitors.last());
    }
}

/// With monitors in a layout the desktop has the size of their box; without, it has the size
/// asked for and the canvas shows all of it.
pub proof fn law_desktop_follows_the_layout(flat: Seq<i32>, width: u16, height: u16)
    ensures
        flat.len() < 5 ==> desktop_of(flat, width, height) == ((width, height), (0u16, 0u16, width, height)),
        flat.len() >= 5 ==> desktop_of(flat, width, height).0 == desktop_size(layout_of(flat)),
        flat.len() >= 5 ==> desktop_of(flat, width, height).1 == surface_rect(
            layout_of(flat),
            desktop_size(layout_of(flat)).0,
            desktop_size(layout_of(flat)).1,
        ),
{
    if flat.len() < 5 {
        assert(layout_of(flat) =~= Seq::<Monitor>::empty());
    }
}

/// Every layout whose numbers are of the size that screens have can be used: nothing but the
/// range of the numbers decides. The edges of all monitors must be numbers, and so must the
/// edges behind them.
pub proof fn law_ordinary_layouts_are_usable(flat: Seq<i32>, i: int)
    ensures
        (forall|k: int| 0 <= k < flat.len() ==> -0x1000_0000 <= #[trigger] flat[k] <= 0x1000_0000) ==> layout_usable(flat),
        layout_fits(flat) && 0 <= i && 5 * i + 5 <= flat.len() ==> {
            &&& i32::MIN <= flat[5 * i] + flat[5 * i + 2] - 1 <= i32::MAX
            &&& i32::MIN <= flat[5 * i + 1] + flat[5 * i + 3] - 1 <= i32::MAX
        },
{
    if layout_fits(flat) && 0 <= i && 5 * i + 5 <= flat.len() {
        assert(monitor_fits(flat, i));
    }
    if forall|k: int| 0 <= k < flat.len() ==> -0x1000_0000 <= #[trigger] flat[k] <= 0x1000_0000 {
        let monitors = layout_of(flat);
        assert forall|j: int| 0 <= j < monitor_count(flat) implies #[trigger] monitor_fits(flat, j) by {
            assert(5 * j + 4 < flat.len());
        }
        assert forall|j: int| 0 <= j < monitors.len() implies (#[trigger] monitors[j]).right < i32::MAX && monitors[j].bottom
            < i32::MAX && rect_fits(monitors[j]) by {
            assert(5 * j + 4 < flat.len());
            assert(monitors[j] == monitor_of(flat, j));
        }
        lemma_primary_index(monitors);
        if main_monitor(monitors) is Some {
            let k = match primary_index(monitors) {
                Some(k) => k,
                None => 0,
            };
            assert(rect_fits(monitors[k]));
        }
    }
}

} // verus!
