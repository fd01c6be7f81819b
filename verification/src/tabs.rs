//! The tabs of a window: which there are, which one is active, what they are
//! called, and how one is renamed.
use vstd::prelude::*;

use crate::chars::{
    chars_of, push_chars, push_text, same_text, text_of, text_view, trim_text, trimmed,
};

verus! {

/// How many characters of a title a tab shows.
pub const MAX_TAB_TITLE_CHARS: usize = 28;

/// A tab. `content` is what it shows.
pub struct Tab<T> {
    pub id: usize,
    pub content: T,
    pub custom_title: Option<String>,
}

pub ghost struct TabView<T> {
    pub id: usize,
    pub content: T,
    pub custom_title: Option<Seq<char>>,
}

impl<T> View for Tab<T> {
    type V = TabView<T>;

    open spec fn view(&self) -> TabView<T> {
        TabView { id: self.id, content: self.content, custom_title: text_view(self.custom_title) }
    }
}

pub open spec fn tab_views<T>(tabs: Seq<Tab<T>>) -> Seq<TabView<T>> {
    tabs.map_values(|tab: Tab<T>| tab@)
}

/// The tabs of a window.
pub struct TerminalTabs<T> {
    tabs: Vec<Tab<T>>,
    active_tab: usize,
    next_tab_id: usize,
    next_snapshot_id: usize,
    renaming_tab_id: Option<usize>,
    rename_buffer: Vec<char>,
}

pub ghost struct TabsView<T> {
    pub tabs: Seq<TabView<T>>,
    pub active: int,
    pub next_id: int,
    pub next_snapshot_id: int,
    /// The tab that is being renamed.
    pub renaming: Option<usize>,
    pub rename_buffer: Seq<char>,
}

impl<T> View for TerminalTabs<T> {
    type V = TabsView<T>;

    closed spec fn view(&self) -> TabsView<T> {
        TabsView {
            tabs: tab_views(self.tabs@),
            active: self.active_tab as int,
            next_id: self.next_tab_id as int,
            next_snapshot_id: self.next_snapshot_id as int,
            renaming: self.renaming_tab_id,
            rename_buffer: self.rename_buffer@,
        }
    }
}

impl<T> TabsView<T> {
    /// There is an active tab while there are tabs, and no two have the same
    /// number.
    pub open spec fn wf(self) -> bool {
        &&& 0 <= self.active
        &&& self.active < self.tabs.len() || (self.tabs.len() == 0 && self.active == 0)
        &&& forall|i: int, j: int|
            0 <= i < j < self.tabs.len() ==> (#[trigger] self.tabs[i]).id != (
            #[trigger] self.tabs[j]).id
        &&& forall|i: int| 0 <= i < self.tabs.len() ==> (#[trigger] self.tabs[i]).id < self.next_id
        &&& 0 <= self.next_id <= usize::MAX
    }

    /// A new tab at the end, which becomes the active one.
    pub open spec fn opened(self, content: T) -> TabsView<T> {
        TabsView {
            tabs: self.tabs.push(
                TabView { id: self.next_id as usize, content, custom_title: None },
            ),
            active: self.tabs.len() as int,
            next_id: self.next_id + 1,
            ..self
        }
    }

    /// Without the tab at a place.
    pub open spec fn closed(self, index: int) -> TabsView<T> {
        if index >= self.tabs.len() {
            self
        } else if self.tabs.len() == 1 {
            TabsView { tabs: self.tabs.remove(index), active: 0, ..self }
        } else {
            TabsView {
                tabs: self.tabs.remove(index),
                active: active_after(self.active, index, self.tabs.len() - 1),
                ..self
            }
        }
    }

    /// With the tab at a place active.
    pub open spec fn activated(self, index: int) -> TabsView<T> {
        if index < self.tabs.len() {
            TabsView { active: index, ..self }
        } else {
            self
        }
    }

    /// With the tab so many places further active, going round at the ends.
    pub open spec fn moved(self, offset: int) -> TabsView<T> {
        if self.tabs.len() <= 1 {
            self
        } else {
            TabsView { active: (self.active + offset) % self.tabs.len() as int, ..self }
        }
    }

    /// Where the tab with a number is, from a place on.
    pub open spec fn index_of(self, id: usize, from: int) -> Option<int>
        decreases self.tabs.len() - from,
    {
        if from >= self.tabs.len() {
            None
        } else if self.tabs[from].id == id {
            Some(from)
        } else {
            self.index_of(id, from + 1)
        }
    }
}

/// Which tab is active after one was removed: the same one, or where that is
/// gone the one that took its place or, at the end, the one before it.
pub open spec fn active_after(active: int, removed: int, remaining_len: int) -> int {
    if active > removed {
        active - 1
    } else if active >= remaining_len {
        remaining_len - 1
    } else {
        active
    }
}

pub fn next_active_tab_index(active: usize, removed: usize, remaining_len: usize) -> (r: usize)
    requires
        remaining_len > 0,
    ensures
        r == active_after(active as int, removed as int, remaining_len as int),
{
    if active > removed {
        active - 1
    } else if active >= remaining_len {
        remaining_len - 1
    } else {
        active
    }
}

/// So many dots.
pub open spec fn dots(count: nat) -> Seq<char> {
    Seq::new(count, |i: int| '.')
}

/// A title cut to a number of characters, with dots in place of what was cut
/// off.
pub open spec fn shortened(title: Seq<char>, max_chars: nat) -> Seq<char> {
    if title.len() <= max_chars {
        title
    } else if max_chars <= 3 {
        dots(max_chars)
    } else {
        title.take(max_chars - 3) + dots(3)
    }
}

pub fn truncate_tab_title(title: &str, max_chars: usize) -> (r: String)
    ensures
        r@ == shortened(title@, max_chars as nat),
{
    let chars = chars_of(title);
    if chars.len() <= max_chars {
        return title.to_owned();
    }
    let kept: usize = if max_chars <= 3 {
        0
    } else {
        max_chars - 3
    };
    let mut out: Vec<char> = Vec::new();
    push_chars(&mut out, vstd::slice::slice_subrange(chars.as_slice(), 0, kept));
    let ghost head = out@;
    let count: usize = max_chars - kept;
    let mut i: usize = 0;
    while i < count
        invariant
            i <= count,
            out@ =~= head + dots(i as nat),
        decreases count - i,
    {
        out.push('.');
        i += 1;
    }
    assert(out@ =~= shortened(title@, max_chars as nat));
    text_of(out.as_slice())
}

/// What a key did to the renaming of a tab.
#[derive(Clone, Copy, Debug, PartialEq, Eq, Structural)]
pub enum RenameStep {
    /// No tab is being renamed; the key is for others.
    NotRenaming,
    /// The renaming has ended, and the active tab gets the focus back.
    Done,
    /// The new title changed.
    Edited,
    /// The key does nothing.
    Ignored,
}

impl<T> TabsView<T> {
    /// The tabs with the title that was typed, or without a title of its own
    /// where that is blank.
    pub open spec fn renamed(self) -> TabsView<T> {
        let title = trimmed(self.rename_buffer);
        let done = TabsView { renaming: None, ..self };
        match self.renaming {
            None => self,
            Some(id) => match self.index_of(id, 0) {
                None => done,
                Some(at) => TabsView {
                    tabs: self.tabs.update(
                        at,
                        TabView {
                            custom_title: if title.len() == 0 {
                                None
                            } else {
                                Some(title)
                            },
                            ..self.tabs[at]
                        },
                    ),
                    ..done
                },
            },
        }
    }

    /// What a key does while a tab is renamed.
    pub open spec fn after_rename_key(
        self,
        key: Seq<char>,
        key_char: Option<Seq<char>>,
        control: bool,
        platform: bool,
    ) -> (RenameStep, TabsView<T>) {
        if self.renaming is None {
            (RenameStep::NotRenaming, self)
        } else if key == "enter"@ {
            (RenameStep::Done, self.renamed())
        } else if key == "escape"@ {
            (RenameStep::Done, TabsView { renaming: None, ..self })
        } else if key == "backspace"@ {
            (
                RenameStep::Edited,
                TabsView {
                    rename_buffer: if self.rename_buffer.len() > 0 {
                        self.rename_buffer.drop_last()
                    } else {
                        self.rename_buffer
                    },
                    ..self
                },
            )
        } else if control || platform {
            (RenameStep::Ignored, self)
        } else {
            match key_char {
                Some(text) => (
                    RenameStep::Edited,
                    TabsView { rename_buffer: self.rename_buffer + text, ..self },
                ),
                None => if key == "space"@ {
                    (
                        RenameStep::Edited,
                        TabsView { rename_buffer: self.rename_buffer.push(' '), ..self },
                    )
                } else {
                    (RenameStep::Ignored, self)
                },
            }
        }
    }
}

impl<T> TerminalTabs<T> {
    pub fn new() -> (tabs: Self)
        ensures
            tabs@ == (TabsView {
                tabs: Seq::<TabView<T>>::empty(),
                active: 0,
                next_id: 1,
                next_snapshot_id: 1,
                renaming: None,
                rename_buffer: Seq::empty(),
            }),
            tabs@.wf(),
    {
        let tabs = TerminalTabs {
            tabs: Vec::new(),
            active_tab: 0,
            next_tab_id: 1,
            next_snapshot_id: 1,
            renaming_tab_id: None,
            rename_buffer: Vec::new(),
        };
        assert(tabs@.tabs =~= Seq::<TabView<T>>::empty());
        tabs
    }

    pub fn tabs(&self) -> (tabs: &[Tab<T>])
        ensures
            tab_views(tabs@) == self@.tabs,
    {
        self.tabs.as_slice()
    }

    pub fn active_index(&self) -> (index: usize)
        ensures
            index == self@.active,
    {
        self.active_tab
    }

    pub fn renaming_tab_id(&self) -> (id: Option<usize>)
        ensures
            id == self@.renaming,
    {
        self.renaming_tab_id
    }

    /// The number that the next tab gets.
    pub fn next_tab_id(&self) -> (id: usize)
        ensures
            id == self@.next_id,
    {
        self.next_tab_id
    }

    /// The number that the next snapshot gets.
    pub fn next_snapshot_id(&self) -> (id: usize)
        ensures
            id == self@.next_snapshot_id,
    {
        self.next_snapshot_id
    }

    /// Opens a tab; returns its number.
    pub fn open_tab(&mut self, content: T) -> (id: usize)
        requires
            old(self)@.wf(),
            old(self)@.next_id < usize::MAX,
        ensures
            final(self)@ == old(self)@.opened(content),
            final(self)@.wf(),
            id == old(self)@.next_id,
    {
        let ghost before = self@;
        let id: usize = self.next_tab_id;
        self.next_tab_id = id + 1;
        self.tabs.push(Tab { id, content, custom_title: None });
        self.active_tab = self.tabs.len() - 1;
        proof {
            assert(self@.tabs =~= before.opened(content).tabs);
            lemma_opened_wf(before, content);
        }
        id
    }

    /// The title of the next snapshot tab.
    pub fn next_snapshot_title(&mut self) -> (title: String)
        requires
            old(self)@.next_snapshot_id < usize::MAX,
        ensures
            title@ == "snap "@ + crate::chars::ascii_text(
                crate::chars::decimal(old(self)@.next_snapshot_id as nat),
            ),
            final(self)@ == (TabsView {
                next_snapshot_id: old(self)@.next_snapshot_id + 1,
                ..old(self)@
            }),
    {
        let mut out: Vec<char> = Vec::new();
        push_text(&mut out, "snap ");
        crate::chars::push_decimal_chars(&mut out, self.next_snapshot_id as u64);
        self.next_snapshot_id = self.next_snapshot_id + 1;
        assert(out@ =~= "snap "@ + crate::chars::ascii_text(
            crate::chars::decimal(old(self)@.next_snapshot_id as nat),
        ));
        text_of(out.as_slice())
    }

    /// Closes the tab at a place; returns whether that was the last one.
    pub fn close_tab_at_index(&mut self, index: usize) -> (last: bool)
        requires
            old(self)@.wf(),
        ensures
            final(self)@ == old(self)@.closed(index as int),
            final(self)@.wf(),
            last == (index < old(self)@.tabs.len() && old(self)@.tabs.len() == 1),
    {
        if index >= self.tabs.len() {
            return false;
        }
        let ghost before = self@;
        let _closed = self.tabs.remove(index);
        assert(tab_views(self.tabs@) =~= before.tabs.remove(index as int));
        proof {
            lemma_closed_wf(before, index as int);
        }
        if self.tabs.len() == 0 {
            self.active_tab = 0;
            return true;
        }
        self.active_tab = next_active_tab_index(self.active_tab, index, self.tabs.len());
        false
    }

    /// Where the tab with a number is.
    pub fn find_tab(&self, id: usize) -> (index: Option<usize>)
        ensures
            match index {
                Some(at) => self@.index_of(id, 0) == Some(at as int) && at < self@.tabs.len(),
                None => self@.index_of(id, 0) is None,
            },
    {
        let mut i: usize = 0;
        while i < self.tabs.len()
            invariant
                i <= self.tabs@.len(),
                self@.index_of(id, i as int) == self@.index_of(id, 0),
            decreases self.tabs@.len() - i,
        {
            assert(self@.tabs[i as int] == self.tabs@[i as int]@);
            if self.tabs[i].id == id {
                return Some(i);
            }
            i += 1;
        }
        None
    }

    /// Closes the tab with a number, if there is one; returns whether that was
    /// the last one.
    pub fn close_tab_by_id(&mut self, id: usize) -> (last: bool)
        requires
            old(self)@.wf(),
        ensures
            final(self)@ == match old(self)@.index_of(id, 0) {
                Some(at) => old(self)@.closed(at),
                None => old(self)@,
            },
            final(self)@.wf(),
            last == (old(self)@.index_of(id, 0) is Some && old(self)@.tabs.len() == 1),
    {
        match self.find_tab(id) {
            Some(index) => self.close_tab_at_index(index),
            None => false,
        }
    }

    /// Closes the active tab; returns whether the window has no tab now.
    pub fn close_active_tab(&mut self) -> (quit: bool)
        requires
            old(self)@.wf(),
        ensures
            final(self)@ == old(self)@.closed(old(self)@.active),
            final(self)@.wf(),
            quit == (final(self)@.tabs.len() == 0),
    {
        if self.tabs.len() == 0 {
            return true;
        }
        self.close_tab_at_index(self.active_tab)
    }

    /// Makes the tab at a place active; returns whether there is one.
    pub fn activate_tab_by_index(&mut self, index: usize) -> (found: bool)
        requires
            old(self)@.wf(),
        ensures
            final(self)@ == old(self)@.activated(index as int),
            final(self)@.wf(),
            found == (index < old(self)@.tabs.len()),
    {
        if index >= self.tabs.len() {
            return false;
        }
        self.active_tab = index;
        true
    }

    /// Makes the tab with a number active; returns whether there is one.
    pub fn activate_tab_by_id(&mut self, id: usize) -> (found: bool)
        requires
            old(self)@.wf(),
        ensures
            final(self)@ == match old(self)@.index_of(id, 0) {
                Some(at) => old(self)@.activated(at),
                None => old(self)@,
            },
            final(self)@.wf(),
            found == (old(self)@.index_of(id, 0) is Some),
    {
        match self.find_tab(id) {
            Some(index) => self.activate_tab_by_index(index),
            None => false,
        }
    }

    /// Makes the tab so many places further active, going round at the ends;
    /// returns whether there is more than one.
    pub fn activate_relative_tab(&mut self, offset: isize) -> (moved: bool)
        requires
            old(self)@.wf(),
        ensures
            final(self)@ == old(self)@.moved(offset as int),
            final(self)@.wf(),
            moved == (old(self)@.tabs.len() > 1),
    {
        if self.tabs.len() <= 1 {
            return false;
        }
        let count: u128 = self.tabs.len() as u128;
        let active: u128 = self.active_tab as u128;
        let next: u128 = if offset >= 0 {
            (active + offset as u128) % count
        } else {
            let back: u128 = (-(offset as i128)) as u128 % count;
            proof {
                lemma_step_back(active as int, offset as int, count as int);
            }
            (active + count - back) % count
        };
        self.active_tab = next as usize;
        true
    }

    /// Starts to rename the active tab, from its present title.
    pub fn start_renaming(&mut self, title: &str) -> (started: bool)
        requires
            old(self)@.wf(),
        ensures
            final(self)@ == if old(self)@.tabs.len() == 0 {
                old(self)@
            } else {
                TabsView {
                    renaming: Some(old(self)@.tabs[old(self)@.active].id),
                    rename_buffer: title@,
                    ..old(self)@
                }
            },
            final(self)@.wf(),
            started == (old(self)@.tabs.len() > 0),
    {
        if self.active_tab >= self.tabs.len() {
            return false;
        }
        assert(self@.tabs[self.active_tab as int] == self.tabs@[self.active_tab as int]@);
        self.renaming_tab_id = Some(self.tabs[self.active_tab].id);
        self.rename_buffer = chars_of(title);
        true
    }

    /// Takes a key into the renaming of a tab.
    pub fn on_rename_key(
        &mut self,
        key: &str,
        key_char: &Option<String>,
        control: bool,
        platform: bool,
    ) -> (step: RenameStep)
        requires
            old(self)@.wf(),
        ensures
            (step, final(self)@) == old(self)@.after_rename_key(
                key@,
                text_view(*key_char),
                control,
                platform,
            ),
            final(self)@.wf(),
    {
        let id: usize = match self.renaming_tab_id {
            Some(id) => id,
            None => return RenameStep::NotRenaming,
        };
        if same_text(key, "enter") {
            let ghost before = self@;
            self.renaming_tab_id = None;
            if let Some(at) = self.find_tab(id) {
                let buffer = text_of(self.rename_buffer.as_slice());
                let title = trim_text(buffer.as_str());
                let ghost tabs = self.tabs@;
                let ghost new_title = title@;
                let tab: &mut Tab<T> = &mut self.tabs[at];
                tab.custom_title = if title.as_str().is_empty() {
                    None
                } else {
                    Some(title)
                };
                proof {
                    lemma_same_indices(before, id, 0);
                    assert(tab_views(self.tabs@) =~= before.renamed().tabs);
                }
            } else {
                proof {
                    lemma_same_indices(before, id, 0);
                }
            }
            return RenameStep::Done;
        }
        if same_text(key, "escape") {
            self.renaming_tab_id = None;
            return RenameStep::Done;
        }
        if same_text(key, "backspace") {
            let ghost typed = self.rename_buffer@;
            let _dropped = self.rename_buffer.pop();
            proof {
                if typed.len() == 0 {
                    assert(self.rename_buffer@ =~= typed);
                }
            }
            return RenameStep::Edited;
        }
        if control || platform {
            return RenameStep::Ignored;
        }
        match key_char {
            Some(text) => {
                push_text(&mut self.rename_buffer, text.as_str());
                RenameStep::Edited
            },
            None => if same_text(key, "space") {
                self.rename_buffer.push(' ');
                RenameStep::Edited
            } else {
                RenameStep::Ignored
            },
        }
    }

    /// What the tab at a place is called: what is being typed, with a mark for
    /// the cursor, while it is renamed; else its own title, or the title of what
    /// it shows, cut to what fits.
    pub fn tab_label(&self, index: usize, content_title: &str) -> (label: String)
        requires
            index < self@.tabs.len(),
        ensures
            label@ == if self@.renaming == Some(self@.tabs[index as int].id) {
                self@.rename_buffer.push('|')
            } else {
                shortened(
                    raw_title(self@.tabs[index as int].custom_title, content_title@),
                    MAX_TAB_TITLE_CHARS as nat,
                )
            },
    {
        let tab: &Tab<T> = &self.tabs[index];
        assert(self@.tabs[index as int] == tab@);
        if let Some(id) = self.renaming_tab_id {
            if id == tab.id {
                let mut out: Vec<char> = Vec::new();
                push_chars(&mut out, self.rename_buffer.as_slice());
                out.push('|');
                assert(out@ =~= self.rename_buffer@.push('|'));
                return text_of(out.as_slice());
            }
        }
        let title = self.raw_tab_title(index, content_title);
        truncate_tab_title(title.as_str(), MAX_TAB_TITLE_CHARS)
    }

    /// The full title of the tab at a place.
    pub fn raw_tab_title(&self, index: usize, content_title: &str) -> (title: String)
        requires
            index < self@.tabs.len(),
        ensures
            title@ == raw_title(self@.tabs[index as int].custom_title, content_title@),
    {
        let tab: &Tab<T> = &self.tabs[index];
        assert(self@.tabs[index as int] == tab@);
        match &tab.custom_title {
            Some(title) => title.clone(),
            None => content_title.to_owned(),
        }
    }
}

/// A tab's own title, or that of what it shows.
pub open spec fn raw_title(custom_title: Option<Seq<char>>, content_title: Seq<char>) -> Seq<char> {
    match custom_title {
        Some(title) => title,
        None => content_title,
    }
}

proof fn lemma_step_back(active: int, offset: int, count: int)
    requires
        count > 0,
        offset < 0,
        0 <= active < count,
    ensures
        (active + count - (-offset) % count) % count == (active + offset) % count,
{
    let back = (-offset) % count;
    let rounds = (-offset) / count;
    vstd::arithmetic::div_mod::lemma_fundamental_div_mod(-offset, count);
    assert(active + offset == count * (-rounds - 1) + (active + count - back)) by (nonlinear_arith)
        requires
            -offset == count * rounds + back,
    ;
    vstd::arithmetic::div_mod::lemma_mod_multiples_vanish(
        -rounds - 1,
        active + count - back,
        count,
    );
}

proof fn lemma_opened_wf<T>(v: TabsView<T>, content: T)
    requires
        v.wf(),
        v.next_id < usize::MAX,
    ensures
        v.opened(content).wf(),
{
}

proof fn lemma_closed_wf<T>(v: TabsView<T>, index: int)
    requires
        v.wf(),
        0 <= index < v.tabs.len(),
    ensures
        v.closed(index).wf(),
{
    let after = v.closed(index);
    let tabs = v.tabs;
    assert forall|i: int| 0 <= i < after.tabs.len() implies #[trigger] after.tabs[i] == tabs[if i
        < index {
        i
    } else {
        i + 1
    }] by {}
    assert forall|i: int, j: int| 0 <= i < j < after.tabs.len() implies (#[trigger] after.tabs[i]).id
        != (#[trigger] after.tabs[j]).id by {
        let a = if i < index {
            i
        } else {
            i + 1
        };
        let b = if j < index {
            j
        } else {
            j + 1
        };
        assert(tabs[a].id != tabs[b].id);
    }
}

proof fn lemma_same_indices<T>(v: TabsView<T>, id: usize, from: int)
    ensures
        (TabsView { renaming: None, ..v }).index_of(id, from) == v.index_of(id, from),
    decreases v.tabs.len() - from,
{
    if from < v.tabs.len() {
        lemma_same_indices(v, id, from + 1);
    }
}

/// Law: closing another tab leaves the active one active.
pub proof fn law_closing_another_tab_keeps_the_active_one<T>(v: TabsView<T>, index: int)
    requires
        v.wf(),
        0 <= index < v.tabs.len(),
        index != v.active,
    ensures
        v.closed(index).tabs[v.closed(index).active] == v.tabs[v.active],
{
}

/// Law: a title is never shown longer than what fits, and one that fits is
/// shown as it is.
pub proof fn law_titles_fit(title: Seq<char>, max_chars: nat)
    ensures
        shortened(title, max_chars).len() <= max_chars,
        title.len() <= max_chars ==> shortened(title, max_chars) == title,
{
}

/// Law: going round the tabs in two steps is going round in one, and so a step
/// back leads to where a step forward started.
pub proof fn law_going_round_tabs_comes_back<T>(v: TabsView<T>, a: int, b: int)
    requires
        v.wf(),
    ensures
        v.moved(a).moved(b) == v.moved(a + b),
        v.moved(a).moved(-a) == v,
{
    let n = v.tabs.len() as int;
    if n > 1 {
        vstd::arithmetic::div_mod::lemma_add_mod_noop_right(b, v.active + a, n);
        vstd::arithmetic::div_mod::lemma_add_mod_noop_right(-a, v.active + a, n);
        vstd::arithmetic::div_mod::lemma_small_mod(v.active as nat, n as nat);
    }
}

/// Law: a new tab is the active one, has a number that no other tab has, and
/// goes when it is closed: the others are left as they were.
pub proof fn law_closing_undoes_opening<T>(v: TabsView<T>, content: T)
    requires
        v.wf(),
        v.next_id < usize::MAX,
    ensures
        ({
            let opened = v.opened(content);
            &&& opened.tabs[opened.active].content == content
            &&& forall|i: int|
                0 <= i < v.tabs.len() ==> (#[trigger] v.tabs[i]).id
                    != opened.tabs[opened.active].id
            &&& opened.closed(opened.active).tabs == v.tabs
        }),
{
    let opened = v.opened(content);
    assert(opened.closed(opened.active).tabs =~= v.tabs);
}

/// Law: closing a tab takes this tab away and leaves the others in their order.
/// Where it was the active one, the tab that took its place becomes active, or at
/// the end the one before it.
pub proof fn law_closing_a_tab<T>(v: TabsView<T>, index: int, i: int)
    requires
        v.wf(),
        0 <= index < v.tabs.len(),
        0 <= i < v.tabs.len() - 1,
    ensures
        v.closed(index).tabs.len() == v.tabs.len() - 1,
        v.closed(index).tabs[i] == if i < index {
            v.tabs[i]
        } else {
            v.tabs[i + 1]
        },
        index == v.active && index < v.tabs.len() - 1 ==> v.closed(index).active == index,
        index == v.active && index == v.tabs.len() - 1 ==> v.closed(index).active == index - 1,
{
}

/// Law: the next tab is the one to the right, and behind the last one the first;
/// the previous one is the one to the left, and before the first one the last.
pub proof fn law_the_next_and_the_previous_tab<T>(v: TabsView<T>)
    requires
        v.wf(),
        v.tabs.len() > 1,
    ensures
        v.active + 1 < v.tabs.len() ==> v.moved(1).active == v.active + 1,
        v.active + 1 == v.tabs.len() ==> v.moved(1).active == 0,
        v.active > 0 ==> v.moved(-1).active == v.active - 1,
        v.active == 0 ==> v.moved(-1).active == v.tabs.len() - 1,
        v.moved(1).tabs == v.tabs,
{
    let n = v.tabs.len() as int;
    if v.active + 1 < n {
        vstd::arithmetic::div_mod::lemma_small_mod((v.active + 1) as nat, n as nat);
    } else {
        vstd::arithmetic::div_mod::lemma_mod_self_0(n);
    }
    if v.active > 0 {
        vstd::arithmetic::div_mod::lemma_small_mod((v.active - 1) as nat, n as nat);
    } else {
        vstd::arithmetic::div_mod::lemma_mod_multiples_vanish(-1, n - 1, n);
        vstd::arithmetic::div_mod::lemma_small_mod((n - 1) as nat, n as nat);
        assert(n * -1 + (n - 1) == -1) by (nonlinear_arith);
    }
}

/// Law: a tab becomes active by its place, and stays what it is; a place without
/// a tab changes nothing.
pub proof fn law_activating_a_tab<T>(v: TabsView<T>, index: int)
    requires
        0 <= index,
    ensures
        index < v.tabs.len() ==> v.activated(index) == (TabsView { active: index, ..v }),
        index >= v.tabs.len() ==> v.activated(index) == v,
{
}

proof fn lemma_index_of<T>(v: TabsView<T>, id: usize, from: int)
    requires
        0 <= from <= v.tabs.len(),
    ensures
        match v.index_of(id, from) {
            Some(at) => from <= at < v.tabs.len() && v.tabs[at].id == id,
            None => forall|i: int| from <= i < v.tabs.len() ==> (#[trigger] v.tabs[i]).id != id,
        },
    decreases v.tabs.len() - from,
{
    if from < v.tabs.len() && v.tabs[from].id != id {
        lemma_index_of(v, id, from + 1);
    }
}

/// Law: a tab is found by its number wherever it is; a number that no tab has is
/// not found.
pub proof fn law_finding_a_tab<T>(v: TabsView<T>, id: usize, i: int)
    requires
        v.wf(),
    ensures
        0 <= i < v.tabs.len() && v.tabs[i].id == id ==> v.index_of(id, 0) == Some(i),
        (forall|k: int| 0 <= k < v.tabs.len() ==> (#[trigger] v.tabs[k]).id != id) ==> v.index_of(
            id,
            0,
        ) is None,
{
    lemma_index_of(v, id, 0);
    if let Some(at) = v.index_of(id, 0) {
        if 0 <= i < v.tabs.len() && v.tabs[i].id == id && at != i {
            let a = if at < i {
                at
            } else {
                i
            };
            let b = if at < i {
                i
            } else {
                at
            };
            assert(v.tabs[a].id != v.tabs[b].id);
        }
    }
}

/// Law: while a tab is renamed, what is typed is put behind its new title, and to
/// delete takes the last character away. Enter gives the tab this title, without
/// the white space around it, and no other tab another; escape changes no title.
pub proof fn law_renaming_a_tab<T>(v: TabsView<T>, at: int, i: int, key: Seq<char>, text: Seq<char>)
    requires
        v.wf(),
        0 <= at < v.tabs.len(),
        0 <= i < v.tabs.len(),
        v.renaming == Some(v.tabs[at].id),
    ensures
        ({
            let entered = v.after_rename_key("enter"@, None, false, false).1;
            let title = trimmed(v.rename_buffer);
            &&& entered.renaming is None
            &&& entered.tabs.len() == v.tabs.len()
            &&& entered.tabs[at].custom_title == if title.len() == 0 {
                None
            } else {
                Some(title)
            }
            &&& entered.tabs[at].content == v.tabs[at].content && entered.tabs[at].id
                == v.tabs[at].id
            &&& i != at ==> entered.tabs[i] == v.tabs[i]
            &&& entered.active == v.active
        }),
        v.after_rename_key("escape"@, None, false, false) == (
            RenameStep::Done,
            TabsView { renaming: None, ..v },
        ),
        v.rename_buffer.len() > 0 ==> v.after_rename_key(
            "backspace"@,
            None,
            false,
            false,
        ).1.rename_buffer == v.rename_buffer.drop_last(),
        key.len() == 1 ==> v.after_rename_key(key, Some(text), false, false) == (
            RenameStep::Edited,
            TabsView { rename_buffer: v.rename_buffer + text, ..v },
        ),
        v.after_rename_key("space"@, None, false, false).1.rename_buffer == v.rename_buffer.push(
            ' ',
        ),
        key.len() == 1 ==> v.after_rename_key(key, Some(text), true, false).1 == v
            && v.after_rename_key(key, Some(text), false, true).1 == v,
{
    reveal_strlit("enter");
    reveal_strlit("escape");
    reveal_strlit("backspace");
    reveal_strlit("space");
    assert("enter"@.len() == 5 && "escape"@.len() == 6 && "backspace"@.len() == 9);
    assert("space"@.len() == 5 && "space"@[0] == 's' && "enter"@[0] == 'e');
    law_finding_a_tab(v, v.tabs[at].id, at);
}

/// Law: where no tab is renamed, keys are left to others.
pub proof fn law_keys_are_left_alone<T>(
    v: TabsView<T>,
    key: Seq<char>,
    key_char: Option<Seq<char>>,
    control: bool,
    platform: bool,
)
    requires
        v.renaming is None,
    ensures
        v.after_rename_key(key, key_char, control, platform) == (RenameStep::NotRenaming, v),
{
}

/// Law: a title that is too long is shown by its first characters and three dots,
/// as many together as fit; and a tab shows its own title before that of what is
/// in it.
pub proof fn law_long_titles_end_in_dots(title: Seq<char>, max_chars: nat, i: int)
    requires
        3 < max_chars < title.len(),
        0 <= i < max_chars,
    ensures
        shortened(title, max_chars).len() == max_chars,
        i < max_chars - 3 ==> shortened(title, max_chars)[i] == title[i],
        i >= max_chars - 3 ==> shortened(title, max_chars)[i] == '.',
        raw_title(Some(title), Seq::empty()) == title,
        raw_title(None, title) == title,
{
}

} // verus!
