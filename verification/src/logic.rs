//! The state that the listing, extraction and deletion tasks share with the
//! user interface, and the decisions those tasks take on each step. The
//! tasks' file system work is done by the caller, which hands the results in.
use vstd::prelude::*;
use vstd::string::StringExecFns;
use crate::headers::{Header, bytes_contains, headers_for_mode, mode_headers, music_mode, mode_name};
use crate::text::{decimal, to_decimal, replace, replace_all};

verus! {

/// Progress of the running task, as a fraction.
#[derive(Clone, Copy, PartialEq, Eq, Structural, Debug)]
pub struct Progress {
    pub numerator: u128,
    pub denominator: u128,
}

/// What the user interface reads of the running tasks.
pub struct LogicState {
    pub cache_directory: String,
    pub status: String,
    pub file_list: Vec<String>,
    pub request_repaint: bool,
    pub progress: Progress,
    pub list_task_running: bool,
    pub stop_list_running: bool,
    /// A deletion or an extraction is running.
    pub task_running: bool,
}

pub open spec fn idling() -> Seq<char> {
    seq!['I', 'd', 'l', 'i', 'n', 'g']
}

fn idling_text() -> (r: String)
    ensures
        r@ == idling(),
{
    proof {
        reveal_strlit("Idling");
    }
    "Idling".to_owned()
}

/// The entry listed when a directory holds nothing to list.
pub open spec fn no_files() -> Seq<char> {
    "No files to list."@
}

fn no_files_text() -> (r: String)
    ensures
        r@ == no_files(),
{
    "No files to list.".to_owned()
}

/// "`prefix``count`/`total`)", the status shown while a task goes through
/// `total` entries.
pub open spec fn count_message(prefix: Seq<char>, count: nat, total: nat) -> Seq<char> {
    prefix + decimal(count) + seq!['/'] + decimal(total) + seq![')']
}

/// Builds `count_message`.
pub fn count_status(prefix: &str, count: usize, total: usize) -> (r: String)
    ensures
        r@ == count_message(prefix@, count as nat, total as nat),
{
    proof {
        reveal_strlit("/");
        reveal_strlit(")");
    }
    let s = prefix.to_owned();
    let s = s.concat(to_decimal(count).as_str());
    let s = s.concat("/");
    let s = s.concat(to_decimal(total).as_str());
    let s = s.concat(")");
    s
}

impl LogicState {
    /// The state before any task ran.
    pub fn new() -> (r: Self)
        ensures
            r.cache_directory@ == Seq::<char>::empty(),
            r.status@ == idling(),
            r.file_list@.len() == 0,
            !r.request_repaint,
            r.progress == (Progress { numerator: 1, denominator: 1 }),
            !r.list_task_running,
            !r.stop_list_running,
            !r.task_running,
    {
        LogicState {
            cache_directory: String::new(),
            status: idling_text(),
            file_list: Vec::new(),
            request_repaint: false,
            progress: Progress { numerator: 1, denominator: 1 },
            list_task_running: false,
            stop_list_running: false,
            task_running: false,
        }
    }
}

/// Set the status and ask for a repaint.
pub fn update_status(state: &mut LogicState, value: String)
    ensures
        final(state).status == value,
        final(state).request_repaint,
        final(state).cache_directory == old(state).cache_directory,
        final(state).file_list == old(state).file_list,
        final(state).progress == old(state).progress,
        final(state).list_task_running == old(state).list_task_running,
        final(state).stop_list_running == old(state).stop_list_running,
        final(state).task_running == old(state).task_running,
{
    state.status = value;
    state.request_repaint = true;
}

/// Set the progress and ask for a repaint.
pub fn update_progress(state: &mut LogicState, numerator: u128, denominator: u128)
    ensures
        final(state).progress == (Progress { numerator, denominator }),
        final(state).request_repaint,
        final(state).cache_directory == old(state).cache_directory,
        final(state).status == old(state).status,
        final(state).file_list == old(state).file_list,
        final(state).list_task_running == old(state).list_task_running,
        final(state).stop_list_running == old(state).stop_list_running,
        final(state).task_running == old(state).task_running,
{
    state.progress = Progress { numerator, denominator };
    state.request_repaint = true;
}

/// Append an entry to the file list.
pub fn update_file_list(state: &mut LogicState, value: String)
    ensures
        final(state).file_list@ == old(state).file_list@.push(value),
        final(state).cache_directory == old(state).cache_directory,
        final(state).status == old(state).status,
        final(state).request_repaint == old(state).request_repaint,
        final(state).progress == old(state).progress,
        final(state).list_task_running == old(state).list_task_running,
        final(state).stop_list_running == old(state).stop_list_running,
        final(state).task_running == old(state).task_running,
{
    state.file_list.push(value);
}

/// Empty the file list.
pub fn clear_file_list(state: &mut LogicState)
    ensures
        final(state).file_list@.len() == 0,
        final(state).cache_directory == old(state).cache_directory,
        final(state).status == old(state).status,
        final(state).request_repaint == old(state).request_repaint,
        final(state).progress == old(state).progress,
        final(state).list_task_running == old(state).list_task_running,
        final(state).stop_list_running == old(state).stop_list_running,
        final(state).task_running == old(state).task_running,
{
    state.file_list = Vec::new();
}

/// The listed files.
pub fn get_file_list(state: &LogicState) -> (r: Vec<String>)
    ensures
        r@ == state.file_list@,
{
    let mut r: Vec<String> = Vec::new();
    let mut i: usize = 0;
    while i < state.file_list.len()
        invariant
            i <= state.file_list@.len(),
            r@ == state.file_list@.subrange(0, i as int),
        decreases state.file_list@.len() - i,
    {
        r.push(state.file_list[i].clone());
        assert(r@ =~= state.file_list@.subrange(0, i + 1));
        i = i + 1;
    }
    assert(state.file_list@.subrange(0, i as int) =~= state.file_list@);
    r
}

/// The detected cache directory.
pub fn get_cache_directory(state: &LogicState) -> (r: String)
    ensures
        r == state.cache_directory,
{
    state.cache_directory.clone()
}

/// The status line.
pub fn get_status(state: &LogicState) -> (r: String)
    ensures
        r == state.status,
{
    state.status.clone()
}

/// Whether a listing is running.
pub fn get_list_task_running(state: &LogicState) -> (r: bool)
    ensures
        r == state.list_task_running,
{
    state.list_task_running
}

/// Whether a repaint was asked for since the last call; acknowledges it.
pub fn get_request_repaint(state: &mut LogicState) -> (r: bool)
    ensures
        r == old(state).request_repaint,
        !final(state).request_repaint,
        final(state).cache_directory == old(state).cache_directory,
        final(state).status == old(state).status,
        final(state).file_list == old(state).file_list,
        final(state).progress == old(state).progress,
        final(state).list_task_running == old(state).list_task_running,
        final(state).stop_list_running == old(state).stop_list_running,
        final(state).task_running == old(state).task_running,
{
    let old_request_repaint = state.request_repaint;
    state.request_repaint = false;
    old_request_repaint
}

/// Everything but the file list, status, repaint request and progress is unchanged.
pub open spec fn same_flags(a: LogicState, b: LogicState) -> bool {
    &&& a.cache_directory == b.cache_directory
    &&& a.list_task_running == b.list_task_running
    &&& a.stop_list_running == b.stop_list_running
    &&& a.task_running == b.task_running
}

/// How a listing goes through the entries of a directory.
#[derive(Debug, PartialEq)]
pub enum ListingPlan {
    /// List every entry (the music category).
    Direct,
    /// List the entries in which one of these headers occurs.
    Filter(Vec<Header>),
    /// The category is unknown: the listing stops at once.
    Abort,
}

/// How a listing of category `mode` goes through the directory.
pub fn listing_plan(mode: &String) -> (r: ListingPlan)
    ensures
        mode@ == music_mode() ==> r is Direct,
        mode@ != music_mode() && mode_headers(mode@).len() > 0 ==> (r matches ListingPlan::Filter(
            h,
        ) && h@ == mode_headers(mode@)),
        mode@ != music_mode() && mode_headers(mode@).len() == 0 ==> r is Abort,
{
    if *mode == mode_name(0) {
        ListingPlan::Direct
    } else {
        let headers = headers_for_mode(mode);
        if headers.len() > 0 {
            ListingPlan::Filter(headers)
        } else {
            ListingPlan::Abort
        }
    }
}

/// Before a listing starts: if another one runs, ask it to stop and report
/// that it still runs (the caller waits and asks again).
pub fn request_stop_listing(state: &mut LogicState) -> (r: bool)
    ensures
        r == old(state).list_task_running,
        final(state).stop_list_running == (old(state).list_task_running || old(state).stop_list_running),
        final(state).list_task_running == old(state).list_task_running,
        final(state).task_running == old(state).task_running,
        final(state).cache_directory == old(state).cache_directory,
        final(state).status == old(state).status,
        final(state).file_list == old(state).file_list,
        final(state).progress == old(state).progress,
        final(state).request_repaint == old(state).request_repaint,
{
    if state.list_task_running {
        state.stop_list_running = true;
        true
    } else {
        false
    }
}

/// A listing of `total` entries starts: it marks itself running, clears the
/// list, and lists "No files to list." when there is nothing to go through.
pub fn begin_listing(state: &mut LogicState, total: usize)
    ensures
        final(state).list_task_running,
        !final(state).stop_list_running,
        total == 0 ==> final(state).file_list@.len() == 1 && final(state).file_list@[0]@ == no_files(),
        total != 0 ==> final(state).file_list@.len() == 0,
        final(state).task_running == old(state).task_running,
        final(state).cache_directory == old(state).cache_directory,
        final(state).status == old(state).status,
        final(state).progress == old(state).progress,
        final(state).request_repaint == old(state).request_repaint,
{
    state.list_task_running = true;
    state.stop_list_running = false;
    clear_file_list(state);
    if total == 0 {
        update_file_list(state, no_files_text());
    }
}

/// Whether another listing asked this one to stop.
pub fn should_stop_listing(state: &LogicState) -> (r: bool)
    ensures
        r == state.stop_list_running,
{
    state.stop_list_running
}

/// The status while reading entry `count` of `total`.
pub open spec fn reading_message(count: nat, total: nat) -> Seq<char> {
    count_message("Reading files ("@, count, total)
}

/// The status when entry `count` of `total` could not be read.
pub open spec fn unreadable_message(count: nat, total: nat) -> Seq<char> {
    count_message("ERROR: couldn't open ("@, count, total)
}

/// A music listing reaches entry `count` of `total`, named `filename`: it is listed.
pub fn list_entry_direct(state: &mut LogicState, count: usize, total: usize, filename: String)
    ensures
        final(state).file_list@ == old(state).file_list@.push(filename),
        final(state).status@ == reading_message(count as nat, total as nat),
        final(state).progress == (Progress { numerator: count as u128, denominator: total as u128 }),
        final(state).request_repaint,
        same_flags(*final(state), *old(state)),
{
    update_progress(state, count as u128, total as u128);
    update_file_list(state, filename);
    update_status(state, count_status("Reading files (", count, total));
}

/// How many of the non-blank `headers` occur in `buffer`.
pub open spec fn matching_headers(headers: Seq<Header>, buffer: Seq<u8>) -> nat
    decreases headers.len(),
{
    if headers.len() == 0 {
        0
    } else {
        let rest = matching_headers(headers.drop_first(), buffer);
        if headers[0] != Header::Blank && crate::headers::occurs_in(buffer, headers[0].spec_bytes()) {
            rest + 1
        } else {
            rest
        }
    }
}

/// Each header of a category is tried on its own, wherever it stands in the
/// list: an entry is listed once for every header of the list that is not
/// blank and occurs in its first bytes.
pub proof fn law_listed_once_per_found_header(headers: Seq<Header>, buffer: Seq<u8>)
    ensures
        matching_headers(headers, buffer) == headers.filter(
            |h: Header| h != Header::Blank && crate::headers::occurs_in(buffer, h.spec_bytes()),
        ).len(),
    decreases headers.len(),
{
    let found = |h: Header| h != Header::Blank && crate::headers::occurs_in(buffer, h.spec_bytes());
    if headers.len() == 0 {
        reveal_with_fuel(Seq::<_>::filter, 1);
    } else {
        let rest = headers.drop_first();
        law_listed_once_per_found_header(rest, buffer);
        assert(seq![headers[0]] + rest =~= headers);
        rest.lemma_filter_prepend(headers[0], found);
    }
}

/// An entry whose first bytes hold a non-blank header of the list is listed
/// at least once, whatever the headers before it.
pub proof fn law_found_header_lists_entry(headers: Seq<Header>, buffer: Seq<u8>, j: int)
    requires
        0 <= j < headers.len(),
        headers[j] != Header::Blank,
        crate::headers::occurs_in(buffer, headers[j].spec_bytes()),
    ensures
        matching_headers(headers, buffer) >= 1,
    decreases headers.len(),
{
    if j > 0 {
        law_found_header_lists_entry(headers.drop_first(), buffer, j - 1);
    }
}

/// `s` repeated `k` times.
pub open spec fn repeated(s: String, k: nat) -> Seq<String> {
    Seq::new(k, |_i: int| s)
}

/// A filtering listing reaches entry `count` of `total`, named `filename`,
/// whose first bytes are `buffer` (`None` when they could not be read). The
/// entry is listed once for each non-blank header that occurs in them.
pub fn list_entry_filtered(
    state: &mut LogicState,
    headers: &Vec<Header>,
    count: usize,
    total: usize,
    filename: String,
    buffer: Option<Vec<u8>>,
) -> (r: usize)
    ensures
        final(state).progress == (Progress { numerator: count as u128, denominator: total as u128 }),
        final(state).request_repaint,
        same_flags(*final(state), *old(state)),
        match buffer {
            None => {
                &&& r == 0
                &&& final(state).file_list == old(state).file_list
                &&& final(state).status@ == unreadable_message(count as nat, total as nat)
            },
            Some(b) => {
                &&& r == matching_headers(headers@, b@)
                &&& r == headers@.filter(
                    |h: Header| h != Header::Blank && crate::headers::occurs_in(b@, h.spec_bytes()),
                ).len()
                &&& final(state).file_list@ == old(state).file_list@ + repeated(filename, r as nat)
                &&& final(state).status@ == reading_message(count as nat, total as nat)
            },
        },
{
    update_progress(state, count as u128, total as u128);
    match buffer {
        None => {
            update_status(state, count_status("ERROR: couldn't open (", count, total));
            0
        },
        Some(b) => {
            let ghost start = state.file_list@;
            let mut listed: usize = 0;
            let mut i: usize = 0;
            assert(headers@.skip(0) =~= headers@);
            while i < headers.len()
                invariant
                    i <= headers@.len(),
                    listed <= i,
                    listed + matching_headers(headers@.skip(i as int), b@) == matching_headers(headers@, b@),
                    state.file_list@ == start + repeated(filename, listed as nat),
                    state.progress == (Progress { numerator: count as u128, denominator: total as u128 }),
                    state.request_repaint,
                    same_flags(*state, *old(state)),
                decreases headers@.len() - i,
            {
                let header = headers[i];
                assert(headers@.skip(i as int).drop_first() =~= headers@.skip(i + 1));
                if header != Header::Blank {
                    let needle = header.bytes();
                    if bytes_contains(b.as_slice(), needle.as_slice()) {
                        update_file_list(state, filename.clone());
                        assert(state.file_list@ =~= start + repeated(filename, (listed + 1) as nat));
                        listed = listed + 1;
                    }
                }
                i = i + 1;
            }
            assert(headers@.skip(i as int).len() == 0);
            proof {
                law_listed_once_per_found_header(headers@, b@);
            }
            update_status(state, count_status("Reading files (", count, total));
            listed
        },
    }
}

/// A listing ends: it is no longer running and the status goes back to idle.
pub fn finish_listing(state: &mut LogicState)
    ensures
        !final(state).list_task_running,
        final(state).status@ == idling(),
        final(state).request_repaint,
        final(state).file_list == old(state).file_list,
        final(state).progress == old(state).progress,
        final(state).stop_list_running == old(state).stop_list_running,
        final(state).task_running == old(state).task_running,
        final(state).cache_directory == old(state).cache_directory,
{
    state.list_task_running = false;
    update_status(state, idling_text());
}

/// A listing's directory could not be read: the list shows that there is
/// nothing to list and the status goes back to idle.
pub fn listing_unreadable_directory(state: &mut LogicState)
    ensures
        final(state).file_list@.len() == 1,
        final(state).file_list@[0]@ == no_files(),
        final(state).status@ == idling(),
        final(state).request_repaint,
        final(state).progress == old(state).progress,
        same_flags(*final(state), *old(state)),
{
    clear_file_list(state);
    update_file_list(state, no_files_text());
    update_status(state, idling_text());
}

/// The status shown when the given path is not a directory.
pub open spec fn check_logs_message() -> Seq<char> {
    "Error: check logs for more details."@
}

/// The path a task was given is not a directory.
pub fn task_path_not_directory(state: &mut LogicState)
    ensures
        final(state).status@ == check_logs_message(),
        final(state).request_repaint == old(state).request_repaint,
        final(state).file_list == old(state).file_list,
        final(state).progress == old(state).progress,
        same_flags(*final(state), *old(state)),
{
    state.status = "Error: check logs for more details.".to_owned();
}

/// The path a deletion or extraction was given could not be read.
pub fn task_path_unreadable(state: &mut LogicState)
    ensures
        final(state).status@ == idling(),
        final(state).request_repaint == old(state).request_repaint,
        final(state).file_list == old(state).file_list,
        final(state).progress == old(state).progress,
        same_flags(*final(state), *old(state)),
{
    state.status = idling_text();
}

/// Whether a deletion or an extraction may start: none is running.
pub fn task_may_start(state: &LogicState) -> (r: bool)
    ensures
        r == !state.task_running,
{
    !state.task_running
}

/// A deletion or an extraction starts; no other may start until it ends.
pub fn start_task(state: &mut LogicState)
    ensures
        final(state).task_running,
        final(state).status == old(state).status,
        final(state).file_list == old(state).file_list,
        final(state).progress == old(state).progress,
        final(state).request_repaint == old(state).request_repaint,
        final(state).list_task_running == old(state).list_task_running,
        final(state).stop_list_running == old(state).stop_list_running,
        final(state).cache_directory == old(state).cache_directory,
{
    state.task_running = true;
}

/// The status after deleting entry `count` of `total`, by success.
pub open spec fn deletion_message(count: nat, total: nat, deleted: bool) -> Seq<char> {
    if deleted {
        count_message("Deleting files ("@, count, total)
    } else {
        count_message("ERROR: Failed to delete ("@, count, total)
    }
}

/// A deletion went through entry `count` of `total`.
pub fn record_deletion(state: &mut LogicState, count: usize, total: usize, deleted: bool)
    ensures
        final(state).progress == (Progress { numerator: count as u128, denominator: total as u128 }),
        final(state).status@ == deletion_message(count as nat, total as nat, deleted),
        final(state).request_repaint,
        final(state).file_list == old(state).file_list,
        same_flags(*final(state), *old(state)),
{
    update_progress(state, count as u128, total as u128);
    if deleted {
        update_status(state, count_status("Deleting files (", count, total));
    } else {
        update_status(state, count_status("ERROR: Failed to delete (", count, total));
    }
}

/// A deletion ends: the list shows that nothing is left, other tasks may
/// start, and the status goes back to idle.
pub fn finish_deletion(state: &mut LogicState)
    ensures
        final(state).file_list@.len() == 1,
        final(state).file_list@[0]@ == no_files(),
        !final(state).task_running,
        final(state).status@ == idling(),
        final(state).request_repaint,
        final(state).progress == old(state).progress,
        final(state).list_task_running == old(state).list_task_running,
        final(state).stop_list_running == old(state).stop_list_running,
        final(state).cache_directory == old(state).cache_directory,
{
    clear_file_list(state);
    update_file_list(state, no_files_text());
    state.task_running = false;
    update_status(state, idling_text());
}

/// The status after extracting entry `count` of `total`, by success.
pub open spec fn extraction_message(count: nat, total: nat, extracted: bool) -> Seq<char> {
    if extracted {
        count_message("Extracting files ("@, count, total)
    } else {
        count_message("ERROR: Failed to extract ("@, count, total)
    }
}

/// An extraction of a list of files went through entry `count` of `total`.
pub fn record_extraction(state: &mut LogicState, count: usize, total: usize, extracted: bool)
    ensures
        final(state).progress == (Progress { numerator: count as u128, denominator: total as u128 }),
        final(state).status@ == extraction_message(count as nat, total as nat, extracted),
        final(state).request_repaint,
        final(state).file_list == old(state).file_list,
        same_flags(*final(state), *old(state)),
{
    update_progress(state, count as u128, total as u128);
    if extracted {
        update_status(state, count_status("Extracting files (", count, total));
    } else {
        update_status(state, count_status("ERROR: Failed to extract (", count, total));
    }
}

/// The status once an extraction is over.
pub open spec fn all_extracted() -> Seq<char> {
    "All files extracted"@
}

/// An extraction ends: other tasks may start.
pub fn finish_extraction(state: &mut LogicState)
    ensures
        !final(state).task_running,
        final(state).status@ == all_extracted(),
        final(state).request_repaint,
        final(state).file_list == old(state).file_list,
        final(state).progress == old(state).progress,
        final(state).list_task_running == old(state).list_task_running,
        final(state).stop_list_running == old(state).stop_list_running,
        final(state).cache_directory == old(state).cache_directory,
{
    state.task_running = false;
    update_status(state, "All files extracted".to_owned());
}

/// Extracting everything, first stage: music file `count` of `total` was
/// extracted; this stage fills the first third of the progress bar.
pub fn record_music_extraction(state: &mut LogicState, count: usize, total: usize)
    ensures
        final(state).progress.numerator == count,
        final(state).progress.denominator == 3 * total,
        final(state).status@ == count_message("Stage 1: Extracting files ("@, count as nat, total as nat),
        final(state).request_repaint,
        final(state).file_list == old(state).file_list,
        same_flags(*final(state), *old(state)),
{
    update_progress(state, count as u128, 3 * (total as u128));
    update_status(state, count_status("Stage 1: Extracting files (", count, total));
}

/// Extracting everything, second stage: cached file `count` of `total` was
/// filtered (`read` is false when it could not be read); this stage fills the
/// second third of the progress bar.
pub fn record_filtering(state: &mut LogicState, count: usize, total: usize, read: bool)
    ensures
        final(state).progress.numerator == count + total,
        final(state).progress.denominator == 3 * total,
        read ==> final(state).status@ == count_message("Stage 2: Filtering files ("@, count as nat, total as nat),
        !read ==> final(state).status@ == unreadable_message(count as nat, total as nat),
        final(state).request_repaint,
        final(state).file_list == old(state).file_list,
        same_flags(*final(state), *old(state)),
{
    update_progress(state, count as u128 + total as u128, 3 * (total as u128));
    if read {
        update_status(state, count_status("Stage 2: Filtering files (", count, total));
    } else {
        update_status(state, count_status("ERROR: couldn't open (", count, total));
    }
}

/// Every header of every category, with the category it belongs to.
pub open spec fn all_header_pairs() -> Seq<(Header, Seq<char>)> {
    seq![
        (Header::OggS, crate::headers::sounds_mode()),
        (Header::Id3, crate::headers::sounds_mode()),
        (Header::Png, crate::headers::images_mode()),
        (Header::Webp, crate::headers::images_mode()),
        (Header::Ktx, crate::headers::ktx_mode()),
        (Header::Blank, crate::headers::ktx_mode()),
        (Header::Roblox, crate::headers::rbxm_mode()),
        (Header::Blank, crate::headers::rbxm_mode()),
    ]
}

/// The pairs of `pairs` whose header is not blank and occurs in `buffer`, in order.
pub open spec fn matching_pairs(pairs: Seq<(Header, Seq<char>)>, buffer: Seq<u8>) -> Seq<(Header, Seq<char>)>
    decreases pairs.len(),
{
    if pairs.len() == 0 {
        seq![]
    } else {
        let rest = matching_pairs(pairs.drop_first(), buffer);
        if pairs[0].0 != Header::Blank && crate::headers::occurs_in(buffer, pairs[0].0.spec_bytes()) {
            seq![pairs[0]] + rest
        } else {
            rest
        }
    }
}

/// The second stage of extracting everything tries every pair on its own: it
/// keeps, in order, exactly the pairs whose header is not blank and occurs in
/// the file's first bytes; a blank header is skipped, not a stop.
pub proof fn law_kept_pairs_are_found_pairs(pairs: Seq<(Header, Seq<char>)>, buffer: Seq<u8>)
    ensures
        matching_pairs(pairs, buffer) == pairs.filter(
            |p: (Header, Seq<char>)| p.0 != Header::Blank && crate::headers::occurs_in(buffer, p.0.spec_bytes()),
        ),
    decreases pairs.len(),
{
    let found = |p: (Header, Seq<char>)| p.0 != Header::Blank && crate::headers::occurs_in(buffer, p.0.spec_bytes());
    if pairs.len() == 0 {
        reveal_with_fuel(Seq::<_>::filter, 1);
    } else {
        let rest = pairs.drop_first();
        law_kept_pairs_are_found_pairs(rest, buffer);
        assert(seq![pairs[0]] + rest =~= pairs);
        rest.lemma_filter_prepend(pairs[0], found);
    }
}

/// Every pair whose header is not blank and occurs in the file's first
/// bytes is kept, whatever pairs come before it.
pub proof fn law_found_pair_is_kept(pairs: Seq<(Header, Seq<char>)>, buffer: Seq<u8>, j: int)
    requires
        0 <= j < pairs.len(),
        pairs[j].0 != Header::Blank,
        crate::headers::occurs_in(buffer, pairs[j].0.spec_bytes()),
    ensures
        matching_pairs(pairs, buffer).contains(pairs[j]),
    decreases pairs.len(),
{
    if j > 0 {
        law_found_pair_is_kept(pairs.drop_first(), buffer, j - 1);
        let rest = matching_pairs(pairs.drop_first(), buffer);
        let k = choose|k: int| 0 <= k < rest.len() && rest[k] == pairs[j];
        if pairs[0].0 != Header::Blank && crate::headers::occurs_in(buffer, pairs[0].0.spec_bytes()) {
            assert((seq![pairs[0]] + rest)[k + 1] == pairs[j]);
        } else {
            assert(rest[k] == pairs[j]);
        }
    } else {
        assert(matching_pairs(pairs, buffer)[0] == pairs[0]);
    }
}

/// The pairs of a list of headers and category names, as mathematical values.
pub open spec fn pair_views(pairs: Seq<(Header, String)>) -> Seq<(Header, Seq<char>)> {
    pairs.map_values(|p: (Header, String)| (p.0, p.1@))
}

/// The header and category of each kept file, as mathematical values.
pub open spec fn kept_views(kept: Seq<(String, Header, String)>) -> Seq<(Header, Seq<char>)> {
    kept.map_values(|p: (String, Header, String)| (p.1, p.2@))
}

/// The pairs of `all_header_pairs`.
pub fn all_headers() -> (r: Vec<(Header, String)>)
    ensures
        r@.len() == all_header_pairs().len(),
        forall|i: int| 0 <= i < r@.len() ==> (#[trigger] r@[i]).0 == all_header_pairs()[i].0 && r@[i].1@
            == all_header_pairs()[i].1,
{
    let r = vec![
        (Header::OggS, mode_name(1)),
        (Header::Id3, mode_name(1)),
        (Header::Png, mode_name(2)),
        (Header::Webp, mode_name(2)),
        (Header::Ktx, mode_name(3)),
        (Header::Blank, mode_name(3)),
        (Header::Roblox, mode_name(4)),
        (Header::Blank, mode_name(4)),
    ];
    r
}

/// Extracting everything, second stage: the cached file `filename`, whose
/// first bytes are `buffer`, is kept once with each non-blank header that
/// occurs in them, and that header's category.
pub fn filter_cached_file(
    pairs: &Vec<(Header, String)>,
    filename: &String,
    buffer: &[u8],
    filtered: &mut Vec<(String, Header, String)>,
)
    ensures
        final(filtered)@.len() == old(filtered)@.len() + matching_pairs(pair_views(pairs@), buffer@).len(),
        forall|i: int| 0 <= i < old(filtered)@.len() ==> final(filtered)@[i] == old(filtered)@[i],
        forall|i: int|
            old(filtered)@.len() <= i < final(filtered)@.len() ==> (#[trigger] final(filtered)@[i]).0@
                == filename@ && (final(filtered)@[i].1, final(filtered)@[i].2@) == matching_pairs(
                pair_views(pairs@),
                buffer@,
            )[i - old(filtered)@.len()],
        kept_views(final(filtered)@).skip(old(filtered)@.len() as int) == pair_views(pairs@).filter(
            |p: (Header, Seq<char>)| p.0 != Header::Blank && crate::headers::occurs_in(buffer@, p.0.spec_bytes()),
        ),
{
    let ghost views = pair_views(pairs@);
    let ghost start = filtered@;
    let ghost start_len = filtered@.len();
    let mut i: usize = 0;
    assert(views.skip(0) =~= views);
    assert(kept_views(filtered@).skip(start_len as int) =~= Seq::<(Header, Seq<char>)>::empty());
    assert(matching_pairs(views, buffer@) =~= Seq::<(Header, Seq<char>)>::empty() + matching_pairs(
        views.skip(0),
        buffer@,
    ));
    while i < pairs.len()
        invariant
            i <= pairs@.len(),
            views == pair_views(pairs@),
            filtered@.len() >= start_len,
            start_len == start.len(),
            forall|j: int| 0 <= j < start_len ==> filtered@[j] == start[j],
            kept_views(filtered@).skip(start_len as int) + matching_pairs(views.skip(i as int), buffer@)
                == matching_pairs(views, buffer@),
            forall|j: int| start_len <= j < filtered@.len() ==> (#[trigger] filtered@[j]).0@ == filename@,
        decreases pairs@.len() - i,
    {
        let header = pairs[i].0;
        assert(views.skip(i as int).drop_first() =~= views.skip(i + 1));
        assert(views.skip(i as int)[0] == (header, pairs@[i as int].1@));
        if header != Header::Blank {
            let needle = header.bytes();
            if bytes_contains(buffer, needle.as_slice()) {
                let ghost before = filtered@;
                filtered.push((filename.clone(), header, pairs[i].1.clone()));
                assert(kept_views(filtered@).skip(start_len as int) =~= kept_views(before).skip(
                    start_len as int,
                ).push((header, pairs@[i as int].1@)));
                assert(kept_views(filtered@).skip(start_len as int) + matching_pairs(
                    views.skip(i + 1),
                    buffer@,
                ) =~= kept_views(before).skip(start_len as int) + matching_pairs(views.skip(i as int), buffer@));
            }
        }
        i = i + 1;
    }
    assert(views.skip(i as int) =~= Seq::<(Header, Seq<char>)>::empty());
    assert(kept_views(filtered@).skip(start_len as int) =~= matching_pairs(views, buffer@));
    proof {
        law_kept_pairs_are_found_pairs(views, buffer@);
    }
    assert forall|j: int| start_len <= j < filtered@.len() implies (filtered@[j].1, #[trigger] filtered@[j].2@)
        == matching_pairs(views, buffer@)[j - start_len] by {
        assert(kept_views(filtered@).skip(start_len as int)[j - start_len] == (filtered@[j].1, filtered@[j].2@));
    }
}

/// Where extracting everything writes a cached file that the second stage
/// kept with `header` of `category`: the category's folder of `destination`,
/// under the file's name with the header's extension.
pub open spec fn cached_destination(destination: Seq<char>, category: Seq<char>, filename: Seq<char>, header: Header) -> Seq<char> {
    destination + seq!['/'] + category + seq!['/'] + filename + header.spec_extension().unwrap()
}

/// Extracting everything, third stage: the path and the bytes written for a
/// file kept by the second stage (`entry`: its name, header and category),
/// whose whole content is `bytes`; nothing when the header starts closer to
/// the beginning than its offset.
pub fn plan_cached_extraction(destination: &str, entry: &(String, Header, String), bytes: Vec<u8>) -> (r: Option<
    (String, Vec<u8>),
>)
    requires
        entry.1 != Header::Blank,
    ensures
        r is None <==> crate::headers::extract_bytes_fails(entry.1.spec_name(), bytes@),
        r matches Some(p) ==> p.0@ == cached_destination(destination@, entry.2@, entry.0@, entry.1) && p.1@
            == crate::headers::spec_extract_bytes(entry.1.spec_name(), bytes@),
{
    let header = entry.1;
    let needle = header.bytes();
    proof {
        crate::headers::lemma_header_name_bytes(header);
        crate::headers::lemma_name_offset(header);
    }
    match crate::headers::bytes_search(bytes.clone(), needle.as_slice()) {
        Some(i) => {
            if i < header.offset() {
                return None;
            }
        },
        None => {},
    }
    let extracted = crate::headers::extract_bytes(header.name(), bytes);
    let folder = join_path(destination, entry.2.as_str());
    let path = join_path(folder.as_str(), entry.0.as_str());
    let extension = header.extension();
    match extension {
        Some(e) => {
            let path = path.concat(e.as_str());
            Some((path, extracted))
        },
        None => {
            assert(false);
            None
        },
    }
}

/// Extracting everything, third stage: kept file `count` of `total` was
/// written; this stage fills the last third of the progress bar.
pub fn record_cached_extraction(state: &mut LogicState, count: usize, total: usize)
    ensures
        final(state).progress.numerator == count + 2 * total,
        final(state).progress.denominator == 3 * total,
        final(state).status@ == count_message("Stage 3: Extracting files ("@, count as nat, total as nat),
        final(state).request_repaint,
        final(state).file_list == old(state).file_list,
        same_flags(*final(state), *old(state)),
{
    update_progress(state, count as u128 + 2 * (total as u128), 3 * (total as u128));
    update_status(state, count_status("Stage 3: Extracting files (", count, total));
}

/// Where Roblox keeps its cache, before `~` and `%Temp%` are resolved: on
/// Windows and for Sober on Linux.
pub open spec fn default_directories() -> Seq<Seq<char>> {
    seq!["%Temp%\\Roblox"@, "~/.var/app/org.vinegarhq.Sober/cache/sober"@]
}

/// The templates of `default_directories`.
pub fn get_default_directories() -> (r: Vec<String>)
    ensures
        r@.len() == default_directories().len(),
        forall|i: int| 0 <= i < r@.len() ==> (#[trigger] r@[i])@ == default_directories()[i],
{
    vec!["%Temp%\\Roblox".to_owned(), "~/.var/app/org.vinegarhq.Sober/cache/sober".to_owned()]
}

/// `path` with `%Temp%` replaced by the user's Windows temporary directory,
/// then `~` by the user's home directory on Linux.
pub open spec fn spec_resolve_path(path: Seq<char>, username: Seq<char>) -> Seq<char> {
    let windows_temp = "C:\\Users\\"@ + username + "\\AppData\\Local\\Temp"@;
    let home = "/home/"@ + username;
    replace_all(replace_all(path, "%Temp%"@, windows_temp), "~"@, home)
}

/// Resolves `%Temp%` and `~` in a path for the given user.
pub fn resolve_path(path: &str, username: &str) -> (r: String)
    ensures
        r@ == spec_resolve_path(path@, username@),
{
    let windows_temp = "C:\\Users\\".to_owned().concat(username).concat("\\AppData\\Local\\Temp");
    let home = "/home/".to_owned().concat(username);
    let resolved = replace(path, "%Temp%", windows_temp.as_str());
    replace(resolved.as_str(), "~", home.as_str())
}

/// The candidate cache directories, resolved for `username`.
pub fn resolved_default_directories(username: &str) -> (r: Vec<String>)
    ensures
        r@.len() == default_directories().len(),
        forall|i: int|
            0 <= i < r@.len() ==> (#[trigger] r@[i])@ == spec_resolve_path(default_directories()[i], username@),
{
    let templates = get_default_directories();
    let mut r: Vec<String> = Vec::new();
    let mut i: usize = 0;
    while i < templates.len()
        invariant
            i <= templates@.len(),
            templates@.len() == default_directories().len(),
            forall|j: int| 0 <= j < templates@.len() ==> (#[trigger] templates@[j])@ == default_directories()[j],
            r@.len() == i,
            forall|j: int|
                0 <= j < i ==> (#[trigger] r@[j])@ == spec_resolve_path(default_directories()[j], username@),
        decreases templates@.len() - i,
    {
        r.push(resolve_path(templates[i].as_str(), username));
        i = i + 1;
    }
    r
}

/// What looking at a candidate cache directory found.
#[derive(Debug, PartialEq)]
pub enum DirectoryProbe {
    /// It is a directory.
    Directory,
    /// It exists and is not a directory.
    NotDirectory,
    /// It could not be looked at; the error, as text.
    Unreadable(String),
}

/// The first probe from `i` on that found a directory.
pub open spec fn first_directory(probes: Seq<DirectoryProbe>, i: int) -> Option<int>
    decreases probes.len() - i,
{
    if i < 0 || i >= probes.len() {
        None
    } else if probes[i] is Directory {
        Some(i)
    } else {
        first_directory(probes, i + 1)
    }
}

/// One line for each of the first `n` probes that could not look at its
/// directory: a line feed, the directory's template, ": " and the error.
pub open spec fn probe_errors(templates: Seq<Seq<char>>, probes: Seq<DirectoryProbe>, n: int) -> Seq<char>
    decreases n,
{
    if n <= 0 {
        Seq::empty()
    } else {
        probe_errors(templates, probes, n - 1) + match probes[n - 1] {
            DirectoryProbe::Unreadable(e) => seq!['\n'] + templates[n - 1] + seq![':', ' '] + e@,
            _ => Seq::empty(),
        }
    }
}

/// The message given when no cache directory was found.
pub open spec fn detection_failure(probes: Seq<DirectoryProbe>) -> Seq<char> {
    "Directory detection failed!"@ + probe_errors(default_directories(), probes, probes.len() as int)
}

proof fn lemma_first_directory(probes: Seq<DirectoryProbe>, i: int)
    requires
        0 <= i <= probes.len(),
        forall|j: int| 0 <= j < i ==> !(#[trigger] probes[j] is Directory),
    ensures
        first_directory(probes, i) == first_directory(probes, 0),
    decreases i,
{
    if i > 0 {
        lemma_first_directory(probes, i - 1);
    }
}

/// Detects the cache directory: the first candidate of
/// `resolved_default_directories` that `probes` (one for each, in order)
/// found to be a directory. When none is, the state is unchanged and the
/// message lists the candidates that could not be looked at.
pub fn detect_directory(state: &mut LogicState, username: &str, probes: &Vec<DirectoryProbe>) -> (r: Result<(), String>)
    requires
        probes@.len() == default_directories().len(),
    ensures
        match first_directory(probes@, 0) {
            Some(i) => {
                &&& r is Ok
                &&& final(state).cache_directory@ == spec_resolve_path(default_directories()[i], username@)
                &&& final(state).status == old(state).status
                &&& final(state).file_list == old(state).file_list
                &&& final(state).progress == old(state).progress
                &&& final(state).request_repaint == old(state).request_repaint
                &&& final(state).list_task_running == old(state).list_task_running
                &&& final(state).stop_list_running == old(state).stop_list_running
                &&& final(state).task_running == old(state).task_running
            },
            None => {
                &&& r matches Err(m) && m@ == detection_failure(probes@)
                &&& *final(state) == *old(state)
            },
        },
{
    let templates = get_default_directories();
    let candidates = resolved_default_directories(username);
    let mut errors = "Directory detection failed!".to_owned();
    let mut i: usize = 0;
    while i < probes.len()
        invariant
            i <= probes@.len(),
            probes@.len() == default_directories().len(),
            templates@.len() == default_directories().len(),
            candidates@.len() == default_directories().len(),
            forall|j: int| 0 <= j < templates@.len() ==> (#[trigger] templates@[j])@ == default_directories()[j],
            forall|j: int|
                0 <= j < candidates@.len() ==> (#[trigger] candidates@[j])@ == spec_resolve_path(
                    default_directories()[j],
                    username@,
                ),
            forall|j: int| 0 <= j < i ==> !(#[trigger] probes@[j] is Directory),
            errors@ == "Directory detection failed!"@ + probe_errors(default_directories(), probes@, i as int),
            *state == *old(state),
        decreases probes@.len() - i,
    {
        match &probes[i] {
            DirectoryProbe::Directory => {
                proof {
                    lemma_first_directory(probes@, i as int);
                }
                set_cache_directory(state, candidates[i].clone());
                return Ok(());
            },
            DirectoryProbe::NotDirectory => {},
            DirectoryProbe::Unreadable(e) => {
                proof {
                    reveal_strlit("\n");
                    reveal_strlit(": ");
                }
                errors = errors.concat("\n").concat(templates[i].as_str()).concat(": ").concat(e.as_str());
            },
        }
        i = i + 1;
    }
    proof {
        lemma_first_directory(probes@, i as int);
    }
    Err(errors)
}

/// The status when a file to extract could not be read.
pub fn file_unreadable(state: &mut LogicState, error: &str)
    ensures
        final(state).status@ == "Failed to open file: "@ + error@,
        final(state).request_repaint,
        final(state).file_list == old(state).file_list,
        final(state).progress == old(state).progress,
        same_flags(*final(state), *old(state)),
{
    update_status(state, "Failed to open file: ".to_owned().concat(error));
}

/// The status when the path of a file to extract is not a file.
pub fn not_a_file(state: &mut LogicState, file: &str)
    ensures
        final(state).status@ == "Error: '"@ + file@ + "' Not a file."@,
        final(state).request_repaint == old(state).request_repaint,
        final(state).file_list == old(state).file_list,
        final(state).progress == old(state).progress,
        same_flags(*final(state), *old(state)),
{
    state.status = "Error: '".to_owned().concat(file).concat("' Not a file.");
}

/// The status when the path of a file to extract could not be looked at.
pub fn extraction_path_unreadable(state: &mut LogicState, error: &str)
    ensures
        final(state).status@ == "Error extracting file: "@ + error@,
        final(state).request_repaint,
        final(state).file_list == old(state).file_list,
        final(state).progress == old(state).progress,
        same_flags(*final(state), *old(state)),
{
    update_status(state, "Error extracting file: ".to_owned().concat(error));
}

/// Records the detected cache directory.
pub fn set_cache_directory(state: &mut LogicState, directory: String)
    ensures
        final(state).cache_directory == directory,
        final(state).status == old(state).status,
        final(state).file_list == old(state).file_list,
        final(state).progress == old(state).progress,
        final(state).request_repaint == old(state).request_repaint,
        final(state).list_task_running == old(state).list_task_running,
        final(state).stop_list_running == old(state).stop_list_running,
        final(state).task_running == old(state).task_running,
{
    state.cache_directory = directory;
}

/// `dir` + "/" + `entry`.
pub fn join_path(dir: &str, entry: &str) -> (r: String)
    ensures
        r@ == dir@ + seq!['/'] + entry@,
{
    proof {
        reveal_strlit("/");
    }
    dir.to_owned().concat("/").concat(entry)
}

/// The directory listed for a tab of the command line: the sounds directory
/// for music, the http cache for the others.
pub fn list_directory_for_tab(cache_directory: &str, tab: &String) -> (r: String)
    ensures
        tab@ == "music"@ ==> r@ == cache_directory@ + "/sounds"@,
        tab@ != "music"@ ==> r@ == cache_directory@ + "/http"@,
{
    if *tab == "music".to_owned() {
        cache_directory.to_owned().concat("/sounds")
    } else {
        cache_directory.to_owned().concat("/http")
    }
}

/// Directories made when extracting everything to `destination`: the
/// destination itself, one for music and one for each category.
pub fn extraction_directories(destination: &str) -> (r: Vec<String>)
    ensures
        r@.len() == 6,
        r@[0]@ == destination@,
        r@[1]@ == destination@ + seq!['/'] + music_mode(),
        r@[2]@ == destination@ + seq!['/'] + crate::headers::sounds_mode(),
        r@[3]@ == destination@ + seq!['/'] + crate::headers::images_mode(),
        r@[4]@ == destination@ + seq!['/'] + crate::headers::ktx_mode(),
        r@[5]@ == destination@ + seq!['/'] + crate::headers::rbxm_mode(),
{
    vec![
        destination.to_owned(),
        join_path(destination, mode_name(0).as_str()),
        join_path(destination, mode_name(1).as_str()),
        join_path(destination, mode_name(2).as_str()),
        join_path(destination, mode_name(3).as_str()),
        join_path(destination, mode_name(4).as_str()),
    ]
}

/// Whether the temporary directory may be removed: it is known and is not
/// the root of the file system.
pub fn should_clean_up(temp_dir: &String) -> (r: bool)
    ensures
        r == (temp_dir@ != Seq::<char>::empty() && temp_dir@ != seq!['/']),
{
    proof {
        reveal_strlit("");
        reveal_strlit("/");
        assert(""@ =~= Seq::<char>::empty());
        assert("/"@ =~= seq!['/']);
    }
    *temp_dir != "".to_owned() && *temp_dir != "/".to_owned()
}

/// Whether a directory may have its contents deleted: a blank path could
/// delete everything.
pub fn deletion_allowed(dir: &String) -> (r: bool)
    ensures
        r == (dir@ != Seq::<char>::empty()),
{
    proof {
        reveal_strlit("");
        assert(""@ =~= Seq::<char>::empty());
    }
    *dir != "".to_owned()
}

} // verus!
