//! The decisions of the asset list: what a double click does while assets are
//! swapped or copied, turning swapping on and off behind the ban warning, and
//! which previews may start loading.
use vstd::prelude::*;
use vstd::string::StringExecFns;
use crate::config::{JsonValue, JsonView, alias_assignable, set_asset_alias, set_config_value, spec_set_asset_alias};

verus! {

/// What a double click on an asset asks the caller to do.
#[derive(Debug, PartialEq)]
pub enum DoubleClickAction {
    /// The asset was remembered as the first one of a swap or a copy.
    Select,
    /// Copy the first asset (remembered) onto the second (clicked).
    Copy(String, String),
    /// Swap the first asset (remembered) with the second (clicked).
    Swap(String, String),
    /// Open the asset in the program the system uses for it.
    Open,
}

/// A double click on `asset`. While copying or swapping, the first click
/// remembers the asset and the second one names the pair; a swap then ends,
/// while copying goes on from the same first asset. Otherwise the asset is
/// opened.
pub fn double_click(asset: String, swapping: &mut bool, copying: bool, swapping_asset: &mut Option<String>) -> (r:
    DoubleClickAction)
    ensures
        (copying || *old(swapping)) && *old(swapping_asset) is None ==> {
            &&& r is Select
            &&& *final(swapping_asset) == Some(asset)
            &&& *final(swapping) == *old(swapping)
        },
        copying && *old(swapping_asset) is Some ==> {
            &&& r == DoubleClickAction::Copy((*old(swapping_asset)).unwrap(), asset)
            &&& *final(swapping_asset) == *old(swapping_asset)
            &&& *final(swapping) == *old(swapping)
        },
        !copying && *old(swapping) && *old(swapping_asset) is Some ==> {
            &&& r == DoubleClickAction::Swap((*old(swapping_asset)).unwrap(), asset)
            &&& *final(swapping_asset) is None
            &&& !*final(swapping)
        },
        !copying && !*old(swapping) ==> {
            &&& r is Open
            &&& *final(swapping_asset) == *old(swapping_asset)
            &&& *final(swapping) == *old(swapping)
        },
{
    if copying {
        match swapping_asset {
            None => {
                *swapping_asset = Some(asset);
                DoubleClickAction::Select
            },
            Some(first) => DoubleClickAction::Copy(first.clone(), asset),
        }
    } else if *swapping {
        match swapping_asset {
            None => {
                *swapping_asset = Some(asset);
                DoubleClickAction::Select
            },
            Some(first) => {
                let first = first.clone();
                *swapping_asset = None;
                *swapping = false;
                DoubleClickAction::Swap(first, asset)
            },
        }
    } else {
        DoubleClickAction::Open
    }
}

/// Name of the setting that records that the user accepted the ban warning.
pub open spec fn ban_warning_key() -> Seq<char> {
    "ban-warning-ack"@
}

/// Whether the user accepted the ban warning before.
pub open spec fn ban_warning_accepted(config: JsonView) -> bool {
    match config.get(ban_warning_key()) {
        Some(v) => v.as_bool() == Some(true),
        None => false,
    }
}

/// Whether the ban warning has to be shown before swapping or copying is
/// turned on or off: the user has not accepted it yet.
pub fn ban_warning_needed(config: &JsonValue) -> (r: bool)
    ensures
        r == !ban_warning_accepted(config@),
{
    match crate::config::get_config_bool(config, "ban-warning-ack") {
        Some(accepted) => !accepted,
        None => true,
    }
}

/// Turns swapping (or copying) on or off once the ban warning is accepted
/// (`acknowledged`: accepted before, or just now); the acceptance is kept in
/// the configuration and turning off forgets the remembered asset. Without
/// it nothing changes.
pub fn toggle_swap_or_copy(
    config: &mut JsonValue,
    swapping_or_copying: &mut bool,
    swapping_asset: &mut Option<String>,
    acknowledged: bool,
)
    requires
        old(config)@.is_assignable(),
    ensures
        acknowledged ==> {
            &&& final(config)@ == old(config)@.set(ban_warning_key(), JsonView::Bool(true))
            &&& *final(swapping_or_copying) == !*old(swapping_or_copying)
            &&& *old(swapping_or_copying) ==> *final(swapping_asset) is None
            &&& !*old(swapping_or_copying) ==> *final(swapping_asset) == *old(swapping_asset)
        },
        !acknowledged ==> {
            &&& *final(config) == *old(config)
            &&& *final(swapping_or_copying) == *old(swapping_or_copying)
            &&& *final(swapping_asset) == *old(swapping_asset)
        },
{
    if acknowledged {
        proof {
            reveal_strlit("ban-warning-ack");
        }
        set_config_value(config, "ban-warning-ack", JsonValue::Bool(true));
        if *swapping_or_copying {
            *swapping_asset = None;
        }
        *swapping_or_copying = !*swapping_or_copying;
    }
}

/// Turns swapping on or off, as `toggle_swap_or_copy`.
pub fn toggle_swap(config: &mut JsonValue, swapping: &mut bool, swapping_asset: &mut Option<String>, acknowledged: bool)
    requires
        old(config)@.is_assignable(),
    ensures
        acknowledged ==> {
            &&& final(config)@ == old(config)@.set(ban_warning_key(), JsonView::Bool(true))
            &&& *final(swapping) == !*old(swapping)
            &&& *old(swapping) ==> *final(swapping_asset) is None
            &&& !*old(swapping) ==> *final(swapping_asset) == *old(swapping_asset)
        },
        !acknowledged ==> {
            &&& *final(config) == *old(config)
            &&& *final(swapping) == *old(swapping)
            &&& *final(swapping_asset) == *old(swapping_asset)
        },
{
    toggle_swap_or_copy(config, swapping, swapping_asset, acknowledged)
}

/// The names in a list of assets.
pub open spec fn names(v: Seq<String>) -> Seq<Seq<char>> {
    v.map_values(|s: String| s@)
}

/// Whether the preview of `name` may start loading: it is not loading yet
/// and fewer previews than `parallelism` are loading.
pub fn may_start_loading(loading: &Vec<String>, name: &String, parallelism: usize) -> (r: bool)
    ensures
        r == (!names(loading@).contains(name@) && loading@.len() < parallelism),
{
    let mut i: usize = 0;
    while i < loading.len()
        invariant
            i <= loading@.len(),
            forall|j: int| 0 <= j < i ==> loading@[j]@ != name@,
        decreases loading@.len() - i,
    {
        if loading[i] == *name {
            assert(names(loading@)[i as int] == name@);
            return false;
        }
        i = i + 1;
    }
    assert(!names(loading@).contains(name@)) by {
        if names(loading@).contains(name@) {
            let j = choose|j: int| 0 <= j < names(loading@).len() && names(loading@)[j] == name@;
            assert(loading@[j]@ == name@);
        }
    }
    loading.len() < parallelism
}

/// The names in `v` other than `name`, in order.
pub open spec fn without_name(v: Seq<Seq<char>>, name: Seq<char>) -> Seq<Seq<char>>
    decreases v.len(),
{
    if v.len() == 0 {
        v
    } else {
        let rest = without_name(v.drop_last(), name);
        if v.last() == name {
            rest
        } else {
            rest.push(v.last())
        }
    }
}

/// A preview finished loading, or failed to: `name` leaves the loading list.
pub fn finish_loading(loading: &mut Vec<String>, name: &String)
    ensures
        names(final(loading)@) == without_name(names(old(loading)@), name@),
{
    let ghost start = names(loading@);
    let mut kept: Vec<String> = Vec::new();
    let mut i: usize = 0;
    while i < loading.len()
        invariant
            i <= loading@.len(),
            start == names(loading@),
            names(kept@) == without_name(start.subrange(0, i as int), name@),
        decreases loading@.len() - i,
    {
        assert(start.subrange(0, i + 1).drop_last() =~= start.subrange(0, i as int));
        if loading[i] != *name {
            let ghost before = kept@;
            kept.push(loading[i].clone());
            assert(names(kept@) =~= names(before).push(loading@[i as int]@));
        }
        i = i + 1;
    }
    assert(start.subrange(0, i as int) =~= start);
    *loading = kept;
}

/// Where keyboard navigation moved the selection.
#[derive(Debug, PartialEq)]
pub enum Navigation {
    /// The entry now selected; the list scrolls to it.
    ScrollTo(usize),
    /// Nothing was selected: the first entry shown becomes selected.
    SelectFirstVisible,
    /// The selection is at the end it moved towards.
    Stay,
}

/// The category listed on a tab of the window, by its name; none for the
/// tabs that list nothing.
pub open spec fn spec_mode_for_tab(tab: Seq<char>) -> Option<Seq<char>> {
    if tab == "music"@ {
        Some(crate::headers::music_mode())
    } else if tab == "sounds"@ {
        Some(crate::headers::sounds_mode())
    } else if tab == "images"@ {
        Some(crate::headers::images_mode())
    } else if tab == "ktx-files"@ {
        Some(crate::headers::ktx_mode())
    } else if tab == "rbxm-files"@ {
        Some(crate::headers::rbxm_mode())
    } else {
        None
    }
}

/// The category listed on the tab `tab`.
pub fn mode_for_tab(tab: &String) -> (r: Option<String>)
    ensures
        match r {
            Some(m) => spec_mode_for_tab(tab@) == Some(m@),
            None => spec_mode_for_tab(tab@) is None,
        },
{
    if *tab == "music".to_owned() {
        Some(crate::headers::mode_name(0))
    } else if *tab == "sounds".to_owned() {
        Some(crate::headers::mode_name(1))
    } else if *tab == "images".to_owned() {
        Some(crate::headers::mode_name(2))
    } else if *tab == "ktx-files".to_owned() {
        Some(crate::headers::mode_name(3))
    } else if *tab == "rbxm-files".to_owned() {
        Some(crate::headers::mode_name(4))
    } else {
        None
    }
}

/// The entries of `list` whose name holds `query`, in order, upper and
/// lower case alike.
pub open spec fn spec_matching_entries(list: Seq<Seq<char>>, query: Seq<char>) -> Seq<Seq<char>>
    decreases list.len(),
{
    if list.len() == 0 {
        list
    } else {
        let rest = spec_matching_entries(list.drop_last(), query);
        if crate::text::contains_text(crate::text::lowercase(list.last()), crate::text::lowercase(query)) {
            rest.push(list.last())
        } else {
            rest
        }
    }
}

/// The search keeps, in order, exactly the entries whose lower-case name
/// holds the lower-case query at some position: at its start, in its
/// middle or at its end.
pub proof fn law_search_keeps_entries_holding_query(list: Seq<Seq<char>>, query: Seq<char>)
    ensures
        spec_matching_entries(list, query) == list.filter(
            |e: Seq<char>|
                exists|i: int|
                    0 <= i && i + crate::text::lowercase(query).len() <= crate::text::lowercase(e).len()
                        && #[trigger] crate::text::lowercase(e).subrange(i, i + crate::text::lowercase(query).len())
                        == crate::text::lowercase(query),
        ),
    decreases list.len(),
{
    reveal_with_fuel(Seq::<_>::filter, 1);
    if list.len() > 0 {
        law_search_keeps_entries_holding_query(list.drop_last(), query);
    }
}

/// An entry whose lower-case name starts with the lower-case query is found.
pub proof fn law_search_finds_prefix(list: Seq<Seq<char>>, query: Seq<char>, j: int)
    requires
        0 <= j < list.len(),
        crate::text::lowercase(query).len() <= crate::text::lowercase(list[j]).len(),
        crate::text::lowercase(list[j]).subrange(0, crate::text::lowercase(query).len() as int)
            == crate::text::lowercase(query),
    ensures
        spec_matching_entries(list, query).contains(list[j]),
    decreases list.len(),
{
    let rest = spec_matching_entries(list.drop_last(), query);
    let e = crate::text::lowercase(list[j]);
    let q = crate::text::lowercase(query);
    assert(e.subrange(0, 0 + q.len() as int) == q);
    if j < list.len() - 1 {
        law_search_finds_prefix(list.drop_last(), query, j);
        let k = choose|k: int| 0 <= k < rest.len() && rest[k] == list[j];
        if crate::text::contains_text(crate::text::lowercase(list.last()), q) {
            assert(rest.push(list.last())[k] == list[j]);
        }
    } else {
        assert(spec_matching_entries(list, query) == rest.push(list.last()));
        assert(rest.push(list.last())[rest.len() as int] == list[j]);
    }
}

/// The entries of the list that the search box `query` matches, whatever
/// the case of either.
pub fn matching_entries(list: &Vec<String>, query: &str) -> (r: Vec<String>)
    ensures
        names(r@) == spec_matching_entries(names(list@), query@),
        names(r@) == names(list@).filter(
            |e: Seq<char>|
                exists|i: int|
                    0 <= i && i + crate::text::lowercase(query@).len() <= crate::text::lowercase(e).len()
                        && #[trigger] crate::text::lowercase(e).subrange(i, i + crate::text::lowercase(query@).len())
                        == crate::text::lowercase(query@),
        ),
{
    let ghost all = names(list@);
    let lower_query = crate::text::to_lowercase(query);
    let mut kept: Vec<String> = Vec::new();
    let mut i: usize = 0;
    while i < list.len()
        invariant
            i <= list@.len(),
            all == names(list@),
            lower_query@ == crate::text::lowercase(query@),
            names(kept@) == spec_matching_entries(all.subrange(0, i as int), query@),
        decreases list@.len() - i,
    {
        assert(all.subrange(0, i + 1).drop_last() =~= all.subrange(0, i as int));
        let lower_entry = crate::text::to_lowercase(list[i].as_str());
        if crate::text::text_contains(lower_entry.as_str(), lower_query.as_str()) {
            let ghost before = kept@;
            kept.push(list[i].clone());
            assert(names(kept@) =~= names(before).push(list@[i as int]@));
        }
        i = i + 1;
    }
    assert(all.subrange(0, i as int) =~= all);
    proof {
        law_search_keeps_entries_holding_query(all, query@);
    }
    kept
}

/// Whether the list has nothing to show: it is empty or holds only the
/// placeholder for an empty directory.
pub fn list_is_empty(list: &Vec<String>) -> (r: bool)
    ensures
        r == (list@.len() == 0 || (list@.len() == 1 && list@[0]@ == crate::logic::no_files())),
{
    list.len() == 0 || (list.len() == 1 && list[0] == "No files to list.".to_owned())
}

/// A button of the asset list, in its row above the list or in an entry's
/// context menu.
#[derive(Clone, Copy, PartialEq, Eq, Structural, Debug)]
pub enum ListButton {
    Open,
    ExtractFile,
    Search,
    Rename,
    ClearCache,
    ExtractType,
    Refresh,
    Swap,
    Copy,
    ImagePreview,
}

/// The buttons offered, in order: opening and extracting only for an entry's
/// context menu, the buttons for the whole list, and the preview switch on
/// the images tab.
pub open spec fn spec_list_buttons(for_entry: bool, tab: Seq<char>) -> Seq<ListButton> {
    let entry = if for_entry {
        seq![ListButton::Open, ListButton::ExtractFile]
    } else {
        Seq::empty()
    };
    let common = seq![
        ListButton::Search,
        ListButton::Rename,
        ListButton::ClearCache,
        ListButton::ExtractType,
        ListButton::Refresh,
        ListButton::Swap,
        ListButton::Copy,
    ];
    let preview = if tab == "images"@ {
        seq![ListButton::ImagePreview]
    } else {
        Seq::empty()
    };
    entry + common + preview
}

/// The buttons offered on `tab`, for an entry's context menu when
/// `for_entry` is set (see `spec_list_buttons`).
pub fn list_buttons(for_entry: bool, tab: &str) -> (r: Vec<ListButton>)
    ensures
        r@ == spec_list_buttons(for_entry, tab@),
{
    let mut r: Vec<ListButton> = Vec::new();
    if for_entry {
        r.push(ListButton::Open);
        r.push(ListButton::ExtractFile);
    }
    r.push(ListButton::Search);
    r.push(ListButton::Rename);
    r.push(ListButton::ClearCache);
    r.push(ListButton::ExtractType);
    r.push(ListButton::Refresh);
    r.push(ListButton::Swap);
    r.push(ListButton::Copy);
    if tab.to_owned() == "images".to_owned() {
        r.push(ListButton::ImagePreview);
    }
    assert(r@ =~= spec_list_buttons(for_entry, tab@));
    r
}

/// The state of the asset list between frames.
pub struct FileListUi {
    /// The selected entry, kept for keyboard navigation.
    pub selected: Option<usize>,
    /// The tab shown last, to start a listing when it changes.
    pub current_tab: Option<String>,
    pub renaming: bool,
    pub searching: bool,
    pub search_query: String,
    pub swapping: bool,
    /// The first asset of a swap or copy.
    pub swapping_asset: Option<String>,
    /// The entry whose context menu is open.
    pub asset_context_menu_open: Option<usize>,
    pub copying: bool,
}

impl FileListUi {
    /// The list as it opens: nothing selected, no tab shown, no action going on.
    pub fn new() -> (r: Self)
        ensures
            r.selected is None,
            r.current_tab is None,
            !r.renaming,
            !r.searching,
            r.search_query@ == Seq::<char>::empty(),
            !r.swapping,
            r.swapping_asset is None,
            r.asset_context_menu_open is None,
            !r.copying,
    {
        FileListUi {
            selected: None,
            current_tab: None,
            renaming: false,
            searching: false,
            search_query: String::new(),
            swapping: false,
            swapping_asset: None,
            asset_context_menu_open: None,
            copying: false,
        }
    }

    /// `self` with `selected` replaced.
    pub open spec fn with_selected(self, selected: Option<usize>) -> Self {
        FileListUi { selected, ..self }
    }

    /// The tab `tab` is shown: whether it is not the one shown last, in which
    /// case it is remembered and a listing of it starts.
    pub fn show_tab(&mut self, tab: &String) -> (r: bool)
        ensures
            r == !(old(self).current_tab matches Some(t) && t@ == tab@),
            r ==> *final(self) == (FileListUi { current_tab: Some(*tab), ..*old(self) }),
            !r ==> *final(self) == *old(self),
    {
        let changed = match &self.current_tab {
            Some(t) => *t != *tab,
            None => true,
        };
        if changed {
            self.current_tab = Some(tab.clone());
        }
        changed
    }

    /// The up key: the entry above becomes selected.
    pub fn select_previous(&mut self) -> (r: Navigation)
        ensures
            match old(self).selected {
                Some(s) => if s > 0 {
                    &&& r == Navigation::ScrollTo((s - 1) as usize)
                    &&& *final(self) == old(self).with_selected(Some((s - 1) as usize))
                } else {
                    r is Stay && *final(self) == *old(self)
                },
                None => r is SelectFirstVisible && *final(self) == *old(self),
            },
    {
        match self.selected {
            Some(s) => {
                if s > 0 {
                    self.selected = Some(s - 1);
                    Navigation::ScrollTo(s - 1)
                } else {
                    Navigation::Stay
                }
            },
            None => Navigation::SelectFirstVisible,
        }
    }

    /// The down key: the entry below becomes selected, in a list of `len`
    /// entries.
    pub fn select_next(&mut self, len: usize) -> (r: Navigation)
        requires
            len > 0,
        ensures
            match old(self).selected {
                Some(s) => if s < len - 1 {
                    &&& r == Navigation::ScrollTo((s + 1) as usize)
                    &&& *final(self) == old(self).with_selected(Some((s + 1) as usize))
                } else {
                    r is Stay && *final(self) == *old(self)
                },
                None => r is SelectFirstVisible && *final(self) == *old(self),
            },
    {
        match self.selected {
            Some(s) => {
                if s < len - 1 {
                    self.selected = Some(s + 1);
                    Navigation::ScrollTo(s + 1)
                } else {
                    Navigation::Stay
                }
            },
            None => Navigation::SelectFirstVisible,
        }
    }

    /// After the list is drawn: when keyboard navigation asked to scroll to
    /// an entry that was not drawn, the selection is dropped so that an
    /// entry on screen gets selected next.
    pub fn end_navigation(&mut self, scroll_to: Option<usize>, accepted: bool)
        ensures
            !accepted && scroll_to is Some ==> *final(self) == old(self).with_selected(None),
            !(!accepted && scroll_to is Some) ==> *final(self) == *old(self),
    {
        if !accepted && scroll_to.is_some() {
            self.selected = None;
        }
    }

    /// Escape, outside the search box: swapping and copying stop.
    pub fn cancel_actions(&mut self)
        ensures
            *final(self) == (FileListUi { swapping_asset: None, copying: false, swapping: false, ..*old(self) }),
    {
        self.swapping_asset = None;
        self.copying = false;
        self.swapping = false;
    }

    /// The search button: searching turns on or off, and the context menu
    /// closes.
    pub fn toggle_search(&mut self)
        ensures
            *final(self) == (FileListUi {
                searching: !old(self).searching,
                asset_context_menu_open: None,
                ..*old(self)
            }),
    {
        self.searching = !self.searching;
        self.asset_context_menu_open = None;
    }

    /// The rename button: renaming turns on or off, and the context menu
    /// closes.
    pub fn toggle_renaming(&mut self)
        ensures
            *final(self) == (FileListUi {
                renaming: !old(self).renaming,
                asset_context_menu_open: None,
                ..*old(self)
            }),
    {
        self.renaming = !self.renaming;
        self.asset_context_menu_open = None;
    }

    /// Any other button of the list was used: the context menu closes.
    pub fn close_context_menu(&mut self)
        ensures
            *final(self) == (FileListUi { asset_context_menu_open: None, ..*old(self) }),
    {
        self.asset_context_menu_open = None;
    }

    /// Clicks on the entry `i`: a click selects it unless the list is being
    /// renamed, a secondary click selects it and opens its context menu.
    /// Whether its context menu is open afterwards.
    pub fn click_entry(&mut self, i: usize, clicked: bool, secondary_clicked: bool) -> (menu_open: bool)
        ensures
            final(self).selected == (if secondary_clicked || (clicked && !old(self).renaming) {
                Some(i)
            } else {
                old(self).selected
            }),
            final(self).asset_context_menu_open == (if secondary_clicked {
                Some(i)
            } else {
                old(self).asset_context_menu_open
            }),
            *final(self) == (FileListUi {
                selected: final(self).selected,
                asset_context_menu_open: final(self).asset_context_menu_open,
                ..*old(self)
            }),
            menu_open == (final(self).asset_context_menu_open == Some(i)),
    {
        if clicked && !self.renaming {
            self.selected = Some(i);
        }
        if secondary_clicked {
            self.selected = Some(i);
            self.asset_context_menu_open = Some(i);
        }
        match self.asset_context_menu_open {
            Some(open) => open == i,
            None => false,
        }
    }

    /// A double click, or Enter, on `asset` (see `double_click`).
    pub fn open_asset(&mut self, asset: String) -> (r: DoubleClickAction)
        ensures
            ({
                &&& final(self).selected == old(self).selected
                &&& final(self).current_tab == old(self).current_tab
                &&& final(self).renaming == old(self).renaming
                &&& final(self).searching == old(self).searching
                &&& final(self).search_query == old(self).search_query
                &&& final(self).asset_context_menu_open == old(self).asset_context_menu_open
                &&& final(self).copying == old(self).copying
                &&& (old(self).copying || old(self).swapping) && old(self).swapping_asset is None ==> {
                    &&& r is Select
                    &&& final(self).swapping_asset == Some(asset)
                    &&& final(self).swapping == old(self).swapping
                }
                &&& old(self).copying && old(self).swapping_asset is Some ==> {
                    &&& r == DoubleClickAction::Copy(old(self).swapping_asset.unwrap(), asset)
                    &&& final(self).swapping_asset == old(self).swapping_asset
                    &&& final(self).swapping == old(self).swapping
                }
                &&& !old(self).copying && old(self).swapping && old(self).swapping_asset is Some ==> {
                    &&& r == DoubleClickAction::Swap(old(self).swapping_asset.unwrap(), asset)
                    &&& final(self).swapping_asset is None
                    &&& !final(self).swapping
                }
                &&& !old(self).copying && !old(self).swapping ==> {
                    &&& r is Open
                    &&& final(self).swapping_asset == old(self).swapping_asset
                    &&& final(self).swapping == old(self).swapping
                }
            }),
    {
        double_click(asset, &mut self.swapping, self.copying, &mut self.swapping_asset)
    }

    /// The swap button or Ctrl+D: swapping is turned on or off behind the
    /// ban warning (see `toggle_swap_or_copy`), then `asset` (the one the
    /// action was taken on, if any) becomes the first of the pair.
    pub fn toggle_swapping(&mut self, config: &mut JsonValue, acknowledged: bool, asset: Option<String>)
        requires
            old(config)@.is_assignable(),
        ensures
            acknowledged ==> final(config)@ == old(config)@.set(ban_warning_key(), JsonView::Bool(true)),
            !acknowledged ==> *final(config) == *old(config),
            *final(self) == (FileListUi {
                swapping: if acknowledged { !old(self).swapping } else { old(self).swapping },
                swapping_asset: asset,
                ..*old(self)
            }),
    {
        toggle_swap_or_copy(config, &mut self.swapping, &mut self.swapping_asset, acknowledged);
        self.swapping_asset = asset;
    }

    /// The copy button or Ctrl+C: as `toggle_swapping`, for copying.
    pub fn toggle_copying(&mut self, config: &mut JsonValue, acknowledged: bool, asset: Option<String>)
        requires
            old(config)@.is_assignable(),
        ensures
            acknowledged ==> final(config)@ == old(config)@.set(ban_warning_key(), JsonView::Bool(true)),
            !acknowledged ==> *final(config) == *old(config),
            *final(self) == (FileListUi {
                copying: if acknowledged { !old(self).copying } else { old(self).copying },
                swapping_asset: asset,
                ..*old(self)
            }),
    {
        toggle_swap_or_copy(config, &mut self.copying, &mut self.swapping_asset, acknowledged);
        self.swapping_asset = asset;
    }

    /// One frame of renaming `file_name`, whose alias was `alias`: the text
    /// box now holds `edited`. A changed text becomes the alias at once;
    /// when the box loses focus renaming ends, and an empty alias is reset to
    /// the file's name.
    pub fn rename(&mut self, config: &mut JsonValue, alias: &str, file_name: &str, edited: &str, lost_focus: bool)
        requires
            alias_assignable(old(config)@),
        ensures
            ({
                let first = if edited@ != alias@ {
                    spec_set_asset_alias(old(config)@, file_name@, edited@)
                } else {
                    old(config)@
                };
                let second = if lost_focus && edited@.len() == 0 {
                    spec_set_asset_alias(first, file_name@, file_name@)
                } else {
                    first
                };
                final(config)@ == second
            }),
            lost_focus ==> *final(self) == (FileListUi { renaming: false, ..*old(self) }),
            !lost_focus ==> *final(self) == *old(self),
    {
        let ghost start = config@;
        if edited.to_owned() != alias.to_owned() {
            set_asset_alias(config, file_name, edited);
            proof {
                crate::config::lemma_set_alias_keeps_assignable(start, file_name@, edited@);
            }
        }
        if lost_focus {
            self.renaming = false;
            if edited.unicode_len() == 0 {
                set_asset_alias(config, file_name, file_name);
            }
        }
    }
}

} // verus!
