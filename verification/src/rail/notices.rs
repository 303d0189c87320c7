//! What the page is told of remote applications: windows that appear, change and
//! go, and the outcome of the launch.

use vstd::prelude::*;

use crate::rail::client::RailClientHandler;
use crate::rail::pdu::ExecResult;
use crate::rail::window::{
    event_views, parse, payload_events, Rect, WindowEvent, WindowEventView, WindowInfo, WindowInfoView,
};

verus! {

/// What is told of a window.
#[derive(Debug, PartialEq, Eq)]
pub struct WindowNotice {
    pub id: u32,
    pub is_new: bool,
    pub has_pos: bool,
    pub x: i32,
    pub y: i32,
    pub has_size: bool,
    pub width: i32,
    pub height: i32,
    /// -1 when the order did not carry it.
    pub show_state: i32,
    pub title: Option<String>,
    /// Left, top, right and bottom of each rectangle; empty means no change.
    pub vis_rects: Vec<i32>,
}

/// One call to the page's window manager.
#[derive(Debug, PartialEq, Eq)]
pub enum RailNotice {
    Window(WindowNotice),
    WindowDeleted(u32),
    /// Top-most window first.
    ZOrder(Vec<u32>),
    Active(u32),
}

/// The mathematical value of a [`WindowNotice`].
pub struct WindowNoticeView {
    pub id: u32,
    pub is_new: bool,
    pub has_pos: bool,
    pub x: i32,
    pub y: i32,
    pub has_size: bool,
    pub width: i32,
    pub height: i32,
    pub show_state: i32,
    pub title: Option<Seq<char>>,
    pub vis_rects: Seq<i32>,
}

/// The mathematical value of a [`RailNotice`].
pub enum RailNoticeView {
    Window(WindowNoticeView),
    WindowDeleted(u32),
    ZOrder(Seq<u32>),
    Active(u32),
}

impl View for WindowNotice {
    type V = WindowNoticeView;

    open spec fn view(&self) -> WindowNoticeView {
        WindowNoticeView {
            id: self.id,
            is_new: self.is_new,
            has_pos: self.has_pos,
            x: self.x,
            y: self.y,
            has_size: self.has_size,
            width: self.width,
            height: self.height,
            show_state: self.show_state,
            title: match self.title {
                Some(title) => Some(title@),
                None => None,
            },
            vis_rects: self.vis_rects@,
        }
    }
}

impl View for RailNotice {
    type V = RailNoticeView;

    open spec fn view(&self) -> RailNoticeView {
        match *self {
            RailNotice::Window(w) => RailNoticeView::Window(w@),
            RailNotice::WindowDeleted(id) => RailNoticeView::WindowDeleted(id),
            RailNotice::ZOrder(ids) => RailNoticeView::ZOrder(ids@),
            RailNotice::Active(id) => RailNoticeView::Active(id),
        }
    }
}

/// The mathematical values of a run of notices.
pub open spec fn notice_views(notices: Seq<RailNotice>) -> Seq<RailNoticeView> {
    notices.map_values(|notice: RailNotice| notice@)
}

/// The edges of rectangles, one after the other.
pub open spec fn flat_edges(rects: Seq<Rect>) -> Seq<i32>
    decreases rects.len(),
{
    if rects.len() == 0 {
        Seq::empty()
    } else {
        let r = rects.last();
        flat_edges(rects.drop_last()) + seq![r.left as i32, r.top as i32, r.right as i32, r.bottom as i32]
    }
}

/// What is told of a window: absent numbers read as 0, an absent show state as -1.
pub open spec fn window_notice(info: WindowInfoView) -> WindowNoticeView {
    WindowNoticeView {
        id: info.window_id,
        is_new: info.is_new,
        has_pos: info.x is Some,
        x: if info.x is Some {
            info.x->0
        } else {
            0
        },
        y: if info.y is Some {
            info.y->0
        } else {
            0
        },
        has_size: info.width is Some,
        width: if info.width is Some {
            info.width->0 as i32
        } else {
            0
        },
        height: if info.height is Some {
            info.height->0 as i32
        } else {
            0
        },
        show_state: if info.show_state is Some {
            info.show_state->0 as i32
        } else {
            (-1) as i32
        },
        title: info.title,
        vis_rects: if info.visibility_rects is Some {
            flat_edges(info.visibility_rects->0)
        } else {
            Seq::empty()
        },
    }
}

/// The notices of one event. Icons are not shown, so they give none.
pub open spec fn notices_of(event: WindowEventView) -> Seq<RailNoticeView> {
    match event {
        WindowEventView::NewOrUpdate(info) => seq![RailNoticeView::Window(window_notice(info))],
        WindowEventView::Deleted(id) => seq![RailNoticeView::WindowDeleted(id)],
        WindowEventView::ZOrder(ids) => seq![RailNoticeView::ZOrder(ids)],
        WindowEventView::ActiveWindow(id) => seq![RailNoticeView::Active(id)],
        WindowEventView::Icon { .. } => Seq::empty(),
    }
}

/// The notices of a run of events, in order.
pub open spec fn all_notices(events: Seq<WindowEventView>) -> Seq<RailNoticeView>
    decreases events.len(),
{
    if events.len() == 0 {
        Seq::empty()
    } else {
        all_notices(events.drop_last()) + notices_of(events.last())
    }
}

fn edges(rects: &Vec<Rect>) -> (flat: Vec<i32>)
    ensures
        flat@ == flat_edges(rects@),
{
    let mut flat: Vec<i32> = Vec::new();
    let mut i: usize = 0;
    while i < rects.len()
        invariant
            i <= rects@.len(),
            flat@ == flat_edges(rects@.take(i as int)),
        decreases rects@.len() - i,
    {
        let r: Rect = rects[i];
        flat.push(r.left as i32);
        flat.push(r.top as i32);
        flat.push(r.right as i32);
        flat.push(r.bottom as i32);
        assert(rects@.take(i + 1).drop_last() =~= rects@.take(i as int));
        i = i + 1;
        assert(flat@ =~= flat_edges(rects@.take(i as int)));
    }
    assert(rects@.take(i as int) =~= rects@);
    flat
}

fn notice_of_window(info: WindowInfo) -> (notice: WindowNotice)
    ensures
        notice@ == window_notice(info@),
{
    let vis_rects: Vec<i32> = match &info.visibility_rects {
        Some(rects) => edges(rects),
        None => Vec::new(),
    };
    assert(vis_rects@ =~= window_notice(info@).vis_rects);
    WindowNotice {
        id: info.window_id,
        is_new: info.is_new,
        has_pos: info.x.is_some(),
        x: match info.x {
            Some(x) => x,
            None => 0,
        },
        y: match info.y {
            Some(y) => y,
            None => 0,
        },
        has_size: info.width.is_some(),
        width: match info.width {
            Some(w) => #[verifier::truncate] (w as i32),
            None => 0,
        },
        height: match info.height {
            Some(h) => #[verifier::truncate] (h as i32),
            None => 0,
        },
        show_state: match info.show_state {
            Some(s) => s as i32,
            None => -1,
        },
        title: info.title,
        vis_rects,
    }
}

fn notice_of_event(event: WindowEvent) -> (notice: Option<RailNotice>)
    ensures
        notices_of(event@) == (match notice {
            Some(n) => seq![n@],
            None => Seq::empty(),
        }),
{
    match event {
        WindowEvent::NewOrUpdate(info) => Some(RailNotice::Window(notice_of_window(info))),
        WindowEvent::Deleted(id) => Some(RailNotice::WindowDeleted(id)),
        WindowEvent::ZOrder(ids) => Some(RailNotice::ZOrder(ids)),
        WindowEvent::ActiveWindow(id) => Some(RailNotice::Active(id)),
        WindowEvent::Icon { .. } => None,
    }
}

/// Parses an orders payload into the notices for the page, in order.
pub fn dispatch_window_events(data: &[u8]) -> (notices: Vec<RailNotice>)
    ensures
        notice_views(notices@) == all_notices(payload_events(data@)),
{
    let events = parse(data);
    let ghost all = events@;
    let mut notices: Vec<RailNotice> = Vec::new();
    assert(notice_views(notices@) =~= Seq::<RailNoticeView>::empty());
    for event in it: events
        invariant
            it.seq() == all,
            notice_views(notices@) == all_notices(event_views(all.take(it.index() as int))),
    {
        let ghost i = it.index() as int;
        let ghost so_far = notices@;
        proof {
            assert(event_views(all.take(i + 1)).drop_last() =~= event_views(all.take(i)));
            assert(event_views(all.take(i + 1)).last() == event@);
        }
        match notice_of_event(event) {
            Some(notice) => {
                notices.push(notice);
                assert(notice_views(notices@) =~= notice_views(so_far) + seq![notice@]);
            }
            None => {
                assert(notice_views(notices@) =~= notice_views(so_far) + Seq::<RailNoticeView>::empty());
            }
        }
    }
    assert(all.take(all.len() as int) =~= all);
    notices
}

/// Keeps the execute results for the page, oldest first.
#[derive(Debug, PartialEq, Eq)]
pub struct WasmRailHandler {
    pub results: Vec<ExecResult>,
}

impl WasmRailHandler {
    pub fn new() -> (handler: Self)
        ensures
            handler.results@ == Seq::<ExecResult>::empty(),
    {
        WasmRailHandler { results: Vec::new() }
    }

    /// Hands the results over and forgets them.
    pub fn take_results(&mut self) -> (results: Vec<ExecResult>)
        ensures
            results@ == old(self).results@,
            final(self).results@ == Seq::<ExecResult>::empty(),
    {
        let mut results: Vec<ExecResult> = Vec::new();
        results.append(&mut self.results);
        assert(results@ =~= old(self).results@);
        results
    }
}

impl RailClientHandler for WasmRailHandler {
    open spec fn delivered(before: Self, result: ExecResult, after: Self) -> bool {
        after.results@ == before.results@.push(result)
    }

    fn on_exec_result(&mut self, result: ExecResult) {
        self.results.push(result);
    }
}

/// Events are told one after the other: what is told of two runs of events is what is told of
/// the first and then of the second.
pub proof fn law_events_are_told_in_turn(first: Seq<WindowEventView>, second: Seq<WindowEventView>)
    ensures
        all_notices(first + second) == all_notices(first) + all_notices(second),
    decreases second.len(),
{
    if second.len() == 0 {
        assert(first + second =~= first);
        assert(all_notices(first) + all_notices(second) =~= all_notices(first));
    } else {
        law_events_are_told_in_turn(first, second.drop_last());
        assert((first + second).drop_last() =~= first + second.drop_last());
        assert(all_notices(first + second) =~= all_notices(first) + all_notices(second));
    }
}

/// Each event is told as it is: a window that has gone by its id, the z-order from the top, the
/// active window by its id; an icon is not told.
pub proof fn law_each_event_is_told(event: WindowEventView)
    ensures
        ({
            let told = all_notices(seq![event]);
            match event {
                WindowEventView::NewOrUpdate(info) => told.len() == 1 && told[0] is Window,
                WindowEventView::Deleted(id) => told == seq![RailNoticeView::WindowDeleted(id)],
                WindowEventView::ZOrder(ids) => told == seq![RailNoticeView::ZOrder(ids)],
                WindowEventView::ActiveWindow(id) => told == seq![RailNoticeView::Active(id)],
                WindowEventView::Icon { .. } => told.len() == 0,
            }
        }),
{
    reveal_with_fuel(all_notices, 2);
    assert(seq![event].drop_last() =~= Seq::<WindowEventView>::empty());
    assert(all_notices(seq![event]) =~= notices_of(event));
}

/// What is told of a window is what the order carried, each under its own name: a position and
/// a size only together with the sign that they were carried, a show state of -1 where none
/// was, and no rectangle where none was.
pub proof fn law_window_is_told_as_it_is(info: WindowInfoView)
    ensures
        ({
            let told = all_notices(seq![WindowEventView::NewOrUpdate(info)]);
            &&& told[0] matches RailNoticeView::Window(w)
            &&& w.id == info.window_id
            &&& w.is_new == info.is_new
            &&& w.has_pos == (info.x is Some)
            &&& info.x matches Some(x) ==> w.x == x
            &&& info.y matches Some(y) ==> w.y == y
            &&& info.x is None ==> w.x == 0
            &&& info.y is None ==> w.y == 0
            &&& w.has_size == (info.width is Some)
            &&& info.width matches Some(width) ==> width <= i32::MAX ==> w.width == width
            &&& info.height matches Some(height) ==> height <= i32::MAX ==> w.height == height
            &&& info.width is None ==> w.width == 0
            &&& info.height is None ==> w.height == 0
            &&& info.show_state matches Some(state) ==> w.show_state == state
            &&& info.show_state is None ==> w.show_state == -1
            &&& w.title == info.title
            &&& info.visibility_rects is None ==> w.vis_rects.len() == 0
            &&& info.visibility_rects matches Some(rects) ==> w.vis_rects == flat_edges(rects)
        }),
{
    let event = WindowEventView::NewOrUpdate(info);
    reveal_with_fuel(all_notices, 2);
    assert(seq![event].drop_last() =~= Seq::<WindowEventView>::empty());
    assert(all_notices(seq![event]) =~= notices_of(event));
}

/// Rectangles are told as four numbers each, in their order: left, top, right, bottom.
pub proof fn law_rectangles_are_told_edge_by_edge(rects: Seq<Rect>, i: int)
    requires
        0 <= i < rects.len(),
    ensures
        flat_edges(rects).len() == 4 * rects.len(),
        flat_edges(rects)[4 * i] == rects[i].left,
        flat_edges(rects)[4 * i + 1] == rects[i].top,
        flat_edges(rects)[4 * i + 2] == rects[i].right,
        flat_edges(rects)[4 * i + 3] == rects[i].bottom,
    decreases rects.len(),
{
    lemma_edges_len(rects.drop_last());
    if i < rects.len() - 1 {
        law_rectangles_are_told_edge_by_edge(rects.drop_last(), i);
        assert(rects.drop_last()[i] == rects[i]);
    }
}

proof fn lemma_edges_len(rects: Seq<Rect>)
    ensures
        flat_edges(rects).len() == 4 * rects.len(),
    decreases rects.len(),
{
    if rects.len() > 0 {
        lemma_edges_len(rects.drop_last());
    }
}

} // verus!
