//! Which of the application's pop-up windows are open, and the plain values
//! the window chrome works with.
use vstd::prelude::*;

verus! {

/// The pop-up windows of the application.
#[derive(Debug, Clone, Copy, PartialEq, Eq, Hash, Structural)]
pub enum WindowType {
    Settings,
    NodeConnect,
}

/// Every window type, in display order.
pub open spec fn all_windows() -> Seq<WindowType> {
    seq![WindowType::Settings, WindowType::NodeConnect]
}

/// The title of a window type.
pub open spec fn window_title(w: WindowType) -> Seq<char> {
    match w {
        WindowType::Settings => "Settings"@,
        WindowType::NodeConnect => "Node Connect"@,
    }
}

impl WindowType {
    /// The title of the window.
    pub fn to_string(&self) -> (s: String)
        ensures
            s@ == window_title(*self),
    {
        match self {
            WindowType::Settings => String::from_str("Settings"),
            WindowType::NodeConnect => String::from_str("Node Connect"),
        }
    }

    /// Every window type, closed, in display order.
    pub fn default_map() -> (m: Vec<(WindowType, bool)>)
        ensures
            m@ == seq![(WindowType::Settings, false), (WindowType::NodeConnect, false)],
    {
        let mut m: Vec<(WindowType, bool)> = Vec::new();
        m.push((WindowType::Settings, false));
        m.push((WindowType::NodeConnect, false));
        assert(m@ =~= seq![(WindowType::Settings, false), (WindowType::NodeConnect, false)]);
        m
    }
}

/// The open or closed state of every window.
pub struct WindowsConfig {
    windows: Vec<(WindowType, bool)>,
}

impl View for WindowsConfig {
    type V = Map<WindowType, bool>;

    closed spec fn view(&self) -> Map<WindowType, bool> {
        Map::new(
            |w: WindowType| exists|i: int| 0 <= i < self.windows@.len() && self.windows@[i].0 == w,
            |w: WindowType|
                self.windows@[choose|i: int|
                    0 <= i < self.windows@.len() && self.windows@[i].0 == w].1,
        )
    }
}

impl WindowsConfig {
    /// One entry per window type, in display order.
    pub closed spec fn wf(&self) -> bool {
        &&& self.windows@.len() == 2
        &&& self.windows@[0].0 == WindowType::Settings
        &&& self.windows@[1].0 == WindowType::NodeConnect
    }

    proof fn lemma_view(&self)
        requires
            self.wf(),
        ensures
            self@.dom() == Set::<WindowType>::full(),
            self@[WindowType::Settings] == self.windows@[0].1,
            self@[WindowType::NodeConnect] == self.windows@[1].1,
    {
        assert(self@.dom() =~= Set::<WindowType>::full()) by {
            assert forall|w: WindowType| self@.dom().contains(w) by {
                match w {
                    WindowType::Settings => assert(self.windows@[0].0 == w),
                    WindowType::NodeConnect => assert(self.windows@[1].0 == w),
                }
            }
        }
        assert(self.windows@[0].0 == WindowType::Settings);
        assert(self.windows@[1].0 == WindowType::NodeConnect);
    }

    /// Every window closed.
    pub fn new() -> (c: WindowsConfig)
        ensures
            c.wf(),
            c@ == Map::total(|w: WindowType| false),
    {
        let c = WindowsConfig { windows: WindowType::default_map() };
        proof {
            c.lemma_view();
            assert(c@ =~= Map::total(|w: WindowType| false));
        }
        c
    }

    fn index_of(w: WindowType) -> (i: usize)
        ensures
            i < 2,
            all_windows()[i as int] == w,
    {
        match w {
            WindowType::Settings => 0,
            WindowType::NodeConnect => 1,
        }
    }

    /// The open windows, in display order.
    pub fn active_windows(&self) -> (v: Vec<WindowType>)
        requires
            self.wf(),
        ensures
            v@ == all_windows().filter(|w: WindowType| self@[w]),
    {
        proof {
            self.lemma_view();
            reveal_with_fuel(Seq::filter, 3);
        }
        let mut v: Vec<WindowType> = Vec::new();
        if self.windows[0].1 {
            v.push(WindowType::Settings);
        }
        if self.windows[1].1 {
            v.push(WindowType::NodeConnect);
        }
        proof {
            let f = |w: WindowType| self@[w];
            assert(all_windows().drop_last() =~= seq![WindowType::Settings]);
            assert(seq![WindowType::Settings].drop_last() =~= Seq::<WindowType>::empty());
            assert(v@ =~= all_windows().filter(f));
        }
        v
    }

    /// Opens a window.
    pub fn open(&mut self, window_type: WindowType)
        requires
            old(self).wf(),
        ensures
            final(self).wf(),
            final(self)@ == old(self)@.insert(window_type, true),
    {
        proof {
            self.lemma_view();
        }
        let i = Self::index_of(window_type);
        self.windows.set(i, (window_type, true));
        proof {
            self.lemma_view();
            assert(self@ =~= old(self)@.insert(window_type, true));
        }
    }

    /// Closes a window.
    pub fn close(&mut self, window_type: WindowType)
        requires
            old(self).wf(),
        ensures
            final(self).wf(),
            final(self)@ == old(self)@.insert(window_type, false),
    {
        proof {
            self.lemma_view();
        }
        let i = Self::index_of(window_type);
        self.windows.set(i, (window_type, false));
        proof {
            self.lemma_view();
            assert(self@ =~= old(self)@.insert(window_type, false));
        }
    }
}

impl Default for WindowsConfig {
    fn default() -> (c: WindowsConfig)
        ensures
            c.wf(),
            c@ == Map::total(|w: WindowType| false),
    {
        WindowsConfig::new()
    }
}

/// What a window's chrome reports after drawing: whether its close button
/// was pressed.
pub struct WindowResponse {
    pub closed: bool,
}

/// The chrome of a pop-up window: its title.
pub struct WindowContent {
    pub title: String,
}

impl WindowContent {
    /// Chrome with the given title.
    pub fn new(title: &str) -> (c: WindowContent)
        ensures
            c.title@ == title@,
    {
        WindowContent { title: String::from_str(title) }
    }
}

/// An on/off switch bound to a flag of the caller.
pub struct Toggle<'a> {
    pub value: &'a mut bool,
}

impl<'a> Toggle<'a> {
    /// A switch bound to `value`.
    pub fn new(value: &'a mut bool) -> (t: Toggle<'a>)
        ensures
            *t.value == *old(value),
            *final(value) == *final(t.value),
    {
        Toggle { value }
    }
}

/// The central panel that shows the canvas.
pub struct Body;

/// The bottom bar with version, clock, connection status and frame rate.
pub struct Footer;

/// The top bar with the title and the window buttons.
pub struct Header;

/// The pop-up windows.
pub struct Window;

} // verus!
