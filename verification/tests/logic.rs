use roextract::headers::{mode_name, Header};
use roextract::logic::{
    all_headers, begin_listing, clear_file_list, count_status, deletion_allowed, detect_directory,
    extraction_directories, extraction_path_unreadable, file_unreadable, filter_cached_file, finish_deletion,
    finish_extraction, finish_listing, get_cache_directory, get_default_directories, get_file_list,
    get_list_task_running, get_request_repaint, get_status, join_path, list_directory_for_tab, list_entry_direct,
    list_entry_filtered, listing_plan, listing_unreadable_directory, not_a_file, plan_cached_extraction,
    record_cached_extraction, record_deletion, record_extraction,
    record_filtering, record_music_extraction, request_stop_listing, resolve_path, resolved_default_directories,
    set_cache_directory, should_clean_up, should_stop_listing, start_task, task_may_start, task_path_not_directory,
    task_path_unreadable, update_file_list, update_progress, update_status, DirectoryProbe, ListingPlan, LogicState,
    Progress,
};

#[test]
fn fresh_state_is_idle() {
    let state = LogicState::new();
    assert_eq!(get_status(&state), "Idling");
    assert_eq!(get_cache_directory(&state), "");
    assert!(get_file_list(&state).is_empty());
    assert!(!get_list_task_running(&state));
    assert!(task_may_start(&state));
    assert_eq!(state.progress, Progress { numerator: 1, denominator: 1 });
}

#[test]
fn repaint_request_is_acknowledged_once() {
    let mut state = LogicState::new();
    assert!(!get_request_repaint(&mut state));
    update_status(&mut state, "Working".to_string());
    assert!(get_request_repaint(&mut state));
    assert!(!get_request_repaint(&mut state));
    update_progress(&mut state, 1, 2);
    assert_eq!(state.progress, Progress { numerator: 1, denominator: 2 });
    assert!(get_request_repaint(&mut state));
}

#[test]
fn count_messages() {
    assert_eq!(count_status("Reading files (", 3, 10), "Reading files (3/10)");
    assert_eq!(count_status("Stage 1: Extracting files (", 0, 0), "Stage 1: Extracting files (0/0)");
}

#[test]
fn file_list_updates() {
    let mut state = LogicState::new();
    update_file_list(&mut state, "a".to_string());
    update_file_list(&mut state, "b".to_string());
    assert_eq!(get_file_list(&state), vec!["a".to_string(), "b".to_string()]);
    clear_file_list(&mut state);
    assert!(get_file_list(&state).is_empty());
}

#[test]
fn listing_plans_by_category() {
    assert_eq!(listing_plan(&mode_name(0)), ListingPlan::Direct);
    assert_eq!(listing_plan(&mode_name(1)), ListingPlan::Filter(vec![Header::OggS, Header::Id3]));
    assert_eq!(listing_plan(&mode_name(3)), ListingPlan::Filter(vec![Header::Ktx, Header::Blank]));
    assert_eq!(listing_plan(&"music".to_string()), ListingPlan::Abort);
    assert_eq!(listing_plan(&"sounds".to_string()), ListingPlan::Abort);
}

#[test]
fn a_new_listing_stops_the_running_one() {
    let mut state = LogicState::new();
    assert!(!request_stop_listing(&mut state));
    begin_listing(&mut state, 3);
    assert!(get_list_task_running(&state));
    assert!(!should_stop_listing(&state));
    assert!(request_stop_listing(&mut state));
    assert!(should_stop_listing(&state));
    finish_listing(&mut state);
    assert!(!get_list_task_running(&state));
    assert!(!request_stop_listing(&mut state));
}

#[test]
fn empty_directory_lists_placeholder() {
    let mut state = LogicState::new();
    update_file_list(&mut state, "old".to_string());
    begin_listing(&mut state, 0);
    assert_eq!(get_file_list(&state), vec!["No files to list.".to_string()]);
    let mut state = LogicState::new();
    update_file_list(&mut state, "old".to_string());
    begin_listing(&mut state, 2);
    assert!(get_file_list(&state).is_empty());
}

#[test]
fn music_listing_lists_every_entry() {
    let mut state = LogicState::new();
    begin_listing(&mut state, 2);
    list_entry_direct(&mut state, 1, 2, "song1".to_string());
    assert_eq!(get_status(&state), "Reading files (1/2)");
    list_entry_direct(&mut state, 2, 2, "song2".to_string());
    assert_eq!(state.progress, Progress { numerator: 2, denominator: 2 });
    finish_listing(&mut state);
    assert_eq!(get_file_list(&state), vec!["song1".to_string(), "song2".to_string()]);
    assert_eq!(get_status(&state), "Idling");
}

#[test]
fn filtered_listing_lists_once_per_matching_header() {
    let mut state = LogicState::new();
    let headers = vec![Header::OggS, Header::Id3];
    begin_listing(&mut state, 3);
    let n = list_entry_filtered(&mut state, &headers, 1, 3, "both".to_string(), Some(b"ID3..OggS".to_vec()));
    assert_eq!(n, 2);
    let n = list_entry_filtered(&mut state, &headers, 2, 3, "none".to_string(), Some(b"PNG".to_vec()));
    assert_eq!(n, 0);
    assert_eq!(get_status(&state), "Reading files (2/3)");
    let n = list_entry_filtered(&mut state, &headers, 3, 3, "locked".to_string(), None);
    assert_eq!(n, 0);
    assert_eq!(get_status(&state), "ERROR: couldn't open (3/3)");
    assert_eq!(get_file_list(&state), vec!["both".to_string(), "both".to_string()]);
}

#[test]
fn filtered_listing_skips_blank_header() {
    let mut state = LogicState::new();
    let headers = vec![Header::Ktx, Header::Blank];
    let n = list_entry_filtered(&mut state, &headers, 1, 1, "tex".to_string(), Some(b"\xabKTX 11".to_vec()));
    assert_eq!(n, 1);
    assert_eq!(get_file_list(&state), vec!["tex".to_string()]);
}

#[test]
fn unreadable_directory_lists_placeholder() {
    let mut state = LogicState::new();
    update_file_list(&mut state, "stale".to_string());
    update_status(&mut state, "Reading".to_string());
    listing_unreadable_directory(&mut state);
    assert_eq!(get_file_list(&state), vec!["No files to list.".to_string()]);
    assert_eq!(get_status(&state), "Idling");
}

#[test]
fn task_path_errors() {
    let mut state = LogicState::new();
    task_path_not_directory(&mut state);
    assert_eq!(get_status(&state), "Error: check logs for more details.");
    assert!(!get_request_repaint(&mut state));
    task_path_unreadable(&mut state);
    assert_eq!(get_status(&state), "Idling");
}

#[test]
fn deletion_runs_alone_and_reports() {
    let mut state = LogicState::new();
    start_task(&mut state);
    assert!(!task_may_start(&state));
    record_deletion(&mut state, 1, 3, true);
    assert_eq!(get_status(&state), "Deleting files (1/3)");
    record_deletion(&mut state, 2, 3, false);
    assert_eq!(get_status(&state), "ERROR: Failed to delete (2/3)");
    assert_eq!(state.progress, Progress { numerator: 2, denominator: 3 });
    finish_deletion(&mut state);
    assert!(task_may_start(&state));
    assert_eq!(get_status(&state), "Idling");
    assert_eq!(get_file_list(&state), vec!["No files to list.".to_string()]);
}

#[test]
fn extraction_reports() {
    let mut state = LogicState::new();
    start_task(&mut state);
    record_extraction(&mut state, 1, 2, true);
    assert_eq!(get_status(&state), "Extracting files (1/2)");
    record_extraction(&mut state, 2, 2, false);
    assert_eq!(get_status(&state), "ERROR: Failed to extract (2/2)");
    finish_extraction(&mut state);
    assert_eq!(get_status(&state), "All files extracted");
    assert!(task_may_start(&state));
}

#[test]
fn extract_all_stages_fill_thirds_of_the_bar() {
    let mut state = LogicState::new();
    record_music_extraction(&mut state, 2, 4);
    assert_eq!(state.progress, Progress { numerator: 2, denominator: 12 });
    assert_eq!(get_status(&state), "Stage 1: Extracting files (2/4)");
    record_filtering(&mut state, 1, 5, true);
    assert_eq!(state.progress, Progress { numerator: 6, denominator: 15 });
    assert_eq!(get_status(&state), "Stage 2: Filtering files (1/5)");
    record_filtering(&mut state, 2, 5, false);
    assert_eq!(get_status(&state), "ERROR: couldn't open (2/5)");
}

#[test]
fn cached_file_kept_with_each_matching_category() {
    let pairs = all_headers();
    assert_eq!(pairs.len(), 8);
    let mut filtered: Vec<(String, Header, String)> =
        vec![("earlier".to_string(), Header::Id3, "Sounds".to_string())];
    filter_cached_file(&pairs, &"f".to_string(), b"OggS .. PNG", &mut filtered);
    assert_eq!(
        filtered,
        vec![
            ("earlier".to_string(), Header::Id3, "Sounds".to_string()),
            ("f".to_string(), Header::OggS, "Sounds".to_string()),
            ("f".to_string(), Header::Png, "Images".to_string()),
        ]
    );
    let mut none: Vec<(String, Header, String)> = Vec::new();
    filter_cached_file(&pairs, &"g".to_string(), b"plain", &mut none);
    assert!(none.is_empty());
}

#[test]
fn kept_cached_file_goes_to_its_category_folder() {
    let entry = ("abc".to_string(), Header::Png, "Images".to_string());
    assert_eq!(
        plan_cached_extraction("/out", &entry, b"xx\x89PNGdata".to_vec()),
        Some(("/out/Images/abc.png".to_string(), b"\x89PNGdata".to_vec()))
    );
    let entry = ("s".to_string(), Header::OggS, "Sounds".to_string());
    assert_eq!(
        plan_cached_extraction("/out", &entry, b"headOggSbody".to_vec()),
        Some(("/out/Sounds/s.ogg".to_string(), b"OggSbody".to_vec()))
    );
    let entry = ("w".to_string(), Header::Webp, "Images".to_string());
    assert_eq!(plan_cached_extraction("/out", &entry, b"RIFFWEBP".to_vec()), None);
    let entry = ("m".to_string(), Header::Roblox, "RBXM files".to_string());
    assert_eq!(
        plan_cached_extraction("/out", &entry, b"plain".to_vec()),
        Some(("/out/RBXM files/m.rbxm".to_string(), b"plain".to_vec()))
    );
}

#[test]
fn third_stage_fills_the_last_third() {
    let mut state = LogicState::new();
    record_cached_extraction(&mut state, 1, 4);
    assert_eq!(state.progress, Progress { numerator: 9, denominator: 12 });
    assert_eq!(get_status(&state), "Stage 3: Extracting files (1/4)");
}

#[test]
fn default_directories_resolve_for_user() {
    assert_eq!(
        get_default_directories(),
        vec!["%Temp%\\Roblox".to_string(), "~/.var/app/org.vinegarhq.Sober/cache/sober".to_string()]
    );
    assert_eq!(
        resolved_default_directories("me"),
        vec![
            "C:\\Users\\me\\AppData\\Local\\Temp\\Roblox".to_string(),
            "/home/me/.var/app/org.vinegarhq.Sober/cache/sober".to_string()
        ]
    );
    assert_eq!(resolve_path("~/a/~", "u"), "/home/u/a//home/u");
    assert_eq!(resolve_path("/plain", "u"), "/plain");
}

#[test]
fn detect_directory_takes_first_directory() {
    let mut state = LogicState::new();
    let probes = vec![DirectoryProbe::Unreadable("No such file".to_string()), DirectoryProbe::Directory];
    assert_eq!(detect_directory(&mut state, "me", &probes), Ok(()));
    assert_eq!(get_cache_directory(&state), "/home/me/.var/app/org.vinegarhq.Sober/cache/sober");
    let mut state = LogicState::new();
    let probes = vec![DirectoryProbe::Directory, DirectoryProbe::Directory];
    assert_eq!(detect_directory(&mut state, "me", &probes), Ok(()));
    assert_eq!(get_cache_directory(&state), "C:\\Users\\me\\AppData\\Local\\Temp\\Roblox");
}

#[test]
fn detect_directory_failure_lists_errors() {
    let mut state = LogicState::new();
    let probes = vec![DirectoryProbe::Unreadable("e1".to_string()), DirectoryProbe::NotDirectory];
    assert_eq!(
        detect_directory(&mut state, "me", &probes),
        Err("Directory detection failed!\n%Temp%\\Roblox: e1".to_string())
    );
    assert_eq!(get_cache_directory(&state), "");
    let probes = vec![DirectoryProbe::Unreadable("e1".to_string()), DirectoryProbe::Unreadable("e2".to_string())];
    assert_eq!(
        detect_directory(&mut state, "me", &probes),
        Err("Directory detection failed!\n%Temp%\\Roblox: e1\n~/.var/app/org.vinegarhq.Sober/cache/sober: e2".to_string())
    );
}

#[test]
fn extraction_error_statuses() {
    let mut state = LogicState::new();
    file_unreadable(&mut state, "denied");
    assert_eq!(get_status(&state), "Failed to open file: denied");
    not_a_file(&mut state, "/x");
    assert_eq!(get_status(&state), "Error: '/x' Not a file.");
    extraction_path_unreadable(&mut state, "gone");
    assert_eq!(get_status(&state), "Error extracting file: gone");
}

#[test]
fn paths_and_directories() {
    assert_eq!(join_path("/cache", "abc"), "/cache/abc");
    assert_eq!(list_directory_for_tab("/c", &"music".to_string()), "/c/sounds");
    assert_eq!(list_directory_for_tab("/c", &"images".to_string()), "/c/http");
    assert_eq!(
        extraction_directories("/out"),
        vec![
            "/out".to_string(),
            "/out/Music".to_string(),
            "/out/Sounds".to_string(),
            "/out/Images".to_string(),
            "/out/KTX files".to_string(),
            "/out/RBXM files".to_string()
        ]
    );
    let mut state = LogicState::new();
    set_cache_directory(&mut state, "/roblox".to_string());
    assert_eq!(get_cache_directory(&state), "/roblox");
}

#[test]
fn dangerous_paths_are_refused() {
    assert!(!should_clean_up(&"".to_string()));
    assert!(!should_clean_up(&"/".to_string()));
    assert!(should_clean_up(&"/tmp/.tmpX".to_string()));
    assert!(!deletion_allowed(&"".to_string()));
    assert!(deletion_allowed(&"/cache".to_string()));
}
