use download_sorter::pass::{plan_pass, SortOutcome, SortPlan};
use download_sorter::settle::{extension, has_in_flight, is_in_flight, FileEntry};
use download_sorter::table::{Category, ClassificationTable, TableSource};
use download_sorter::watch::{next_step, WatchAction, WatchEvent, WatchState};

fn file(name: &str) -> FileEntry {
    FileEntry { name: name.to_string(), is_dir: false }
}

fn dir(name: &str) -> FileEntry {
    FileEntry { name: name.to_string(), is_dir: true }
}

fn moves(plan: &SortPlan) -> Vec<(String, String)> {
    plan.moves.iter().map(|m| (m.file_name.clone(), m.category.clone())).collect()
}

fn pair(a: &str, b: &str) -> (String, String) {
    (a.to_string(), b.to_string())
}

#[test]
fn default_table_sends_each_kind_to_its_folder() {
    let table = ClassificationTable::builtin();
    let entries = vec![
        file("report.pdf"),
        file("archive.zip"),
        file("photo.png"),
        file("movie.mkv"),
        file("song.mp3"),
        file("unknown.xyz"),
    ];
    let plan = plan_pass(&table, &entries);
    assert_eq!(plan.outcome, SortOutcome::Completed);
    assert_eq!(
        moves(&plan),
        vec![
            pair("report.pdf", "Documents"),
            pair("archive.zip", "Archives"),
            pair("photo.png", "Images"),
            pair("movie.mkv", "Videos"),
            pair("song.mp3", "Audio"),
            pair("unknown.xyz", "Other"),
        ]
    );
}

#[test]
fn partial_download_first_defers_everything() {
    let table = ClassificationTable::builtin();
    let entries = vec![file("partial.crdownload"), file("done.txt")];
    let plan = plan_pass(&table, &entries);
    assert_eq!(plan.outcome, SortOutcome::Deferred);
    assert!(plan.moves.is_empty());
}

#[test]
fn marker_keeps_earlier_moves_and_stops_later_ones() {
    let table = ClassificationTable::builtin();
    let entries = vec![file("a.pdf"), dir("Images"), file("b.tmp"), file("c.zip")];
    let plan = plan_pass(&table, &entries);
    assert_eq!(plan.outcome, SortOutcome::Deferred);
    assert_eq!(moves(&plan), vec![pair("a.pdf", "Documents")]);
}

#[test]
fn conflicting_file_is_still_planned_and_the_pass_goes_on() {
    // Whether the destination is already taken is found out when the move is
    // made; the plan holds every file, so a failed move does not stop the rest.
    let table = ClassificationTable::builtin();
    let entries = vec![dir("Documents"), file("report.pdf"), file("song.wav")];
    let plan = plan_pass(&table, &entries);
    assert_eq!(plan.outcome, SortOutcome::Completed);
    assert_eq!(moves(&plan), vec![pair("report.pdf", "Documents"), pair("song.wav", "Audio")]);
}

#[test]
fn empty_listing_completes_with_no_moves() {
    let table = ClassificationTable::builtin();
    let plan = plan_pass(&table, &vec![]);
    assert_eq!(plan.outcome, SortOutcome::Completed);
    assert!(plan.moves.is_empty());
}

#[test]
fn second_pass_over_sorted_folder_moves_nothing() {
    let table = ClassificationTable::builtin();
    let first = plan_pass(&table, &vec![file("notes.txt"), file("clip.mp4")]);
    assert_eq!(first.outcome, SortOutcome::Completed);
    assert_eq!(moves(&first), vec![pair("notes.txt", "Documents"), pair("clip.mp4", "Videos")]);
    let after = vec![dir("Documents"), dir("Videos")];
    let second = plan_pass(&table, &after);
    assert_eq!(second.outcome, SortOutcome::Completed);
    assert!(second.moves.is_empty());
}

#[test]
fn unclaimed_extensions_go_to_other() {
    let table = ClassificationTable::builtin();
    let plan = plan_pass(&table, &vec![file("README"), file("data.bin"), file(".profile")]);
    assert_eq!(
        moves(&plan),
        vec![pair("README", "Other"), pair("data.bin", "Other"), pair(".profile", "Other")]
    );
    let empty = ClassificationTable { categories: vec![] };
    let plan = plan_pass(&empty, &vec![file("x.pdf")]);
    assert_eq!(moves(&plan), vec![pair("x.pdf", "Other")]);
}

#[test]
fn upper_case_extensions_are_matched() {
    let table = ClassificationTable::builtin();
    let plan = plan_pass(&table, &vec![file("SCAN.PDF"), file("Setup.Exe")]);
    assert_eq!(moves(&plan), vec![pair("SCAN.PDF", "Documents"), pair("Setup.Exe", "Executables")]);
}

#[test]
fn extensions_of_names() {
    assert_eq!(extension("report.pdf"), "pdf");
    assert_eq!(extension("Report.PDF"), "pdf");
    assert_eq!(extension("archive.tar.GZ"), "gz");
    assert_eq!(extension("README"), "");
    assert_eq!(extension(".profile"), "");
    assert_eq!(extension("trailing."), "");
    assert_eq!(extension(""), "");
    assert_eq!(extension("été.Mp3"), "mp3");
}

#[test]
fn in_flight_markers() {
    assert!(is_in_flight(&"tmp".to_string()));
    assert!(is_in_flight(&"crdownload".to_string()));
    assert!(!is_in_flight(&"txt".to_string()));
    assert!(!is_in_flight(&"".to_string()));
    assert!(has_in_flight(&vec![file("a.txt"), file("b.TMP")]));
    assert!(!has_in_flight(&vec![file("a.txt"), dir("old.tmp")]));
    assert!(!has_in_flight(&vec![]));
}

#[test]
fn malformed_config_falls_back_to_builtin() {
    let (table, source) = ClassificationTable::load(Some("this is not json"));
    assert_eq!(source, TableSource::Malformed);
    assert_eq!(table.categories.len(), 6);
    assert_eq!(table.categories[0].name, "Documents");
    assert_eq!(table.categories[5].name, "Audio");
    let (table, source) = ClassificationTable::load(Some("{\"Docs\": [1, 2]}"));
    assert_eq!(source, TableSource::Malformed);
    assert_eq!(table.categories[1].name, "Archives");
    assert_eq!(table.categories[1].extensions, vec!["zip", "rar", "7z"]);
    let (table, source) = ClassificationTable::load(Some(""));
    assert_eq!(source, TableSource::Malformed);
    assert_eq!(table.categories.len(), 6);
}

#[test]
fn missing_config_uses_builtin() {
    let (table, source) = ClassificationTable::load(None);
    assert_eq!(source, TableSource::Unreadable);
    assert_eq!(table.categories[3].name, "Images");
    assert_eq!(table.categories[3].extensions.len(), 7);
}

#[test]
fn config_categories_come_in_name_order() {
    let text = "{\"Zips\": [\"zip\"], \"Books\": [\"epub\", \"pdf\"], \"Empty\": []}";
    let (table, source) = ClassificationTable::load(Some(text));
    assert_eq!(source, TableSource::Config);
    let names: Vec<String> = table.categories.iter().map(|c| c.name.clone()).collect();
    assert_eq!(names, vec!["Books", "Empty", "Zips"]);
    assert_eq!(table.categories[0].extensions, vec!["epub", "pdf"]);
    assert!(table.categories[1].extensions.is_empty());
    let plan = plan_pass(&table, &vec![file("novel.epub"), file("pack.zip"), file("report.pdf"), file("song.mp3")]);
    assert_eq!(
        moves(&plan),
        vec![
            pair("novel.epub", "Books"),
            pair("pack.zip", "Zips"),
            pair("report.pdf", "Books"),
            pair("song.mp3", "Other"),
        ]
    );
}

#[test]
fn overlapping_extension_goes_to_first_category() {
    let table = ClassificationTable {
        categories: vec![
            Category { name: "First".to_string(), extensions: vec!["png".to_string()] },
            Category { name: "Second".to_string(), extensions: vec!["png".to_string(), "jpg".to_string()] },
        ],
    };
    assert_eq!(table.category_for(&"png".to_string()), "First");
    assert_eq!(table.category_for(&"jpg".to_string()), "Second");
    assert_eq!(table.category_for(&"gif".to_string()), "Other");
    assert!(table.categories[1].claims(&"jpg".to_string()));
    assert!(!table.categories[0].claims(&"jpg".to_string()));
}

#[test]
fn from_parsed_keeps_order_or_uses_builtin() {
    let parsed = vec![("B".to_string(), vec!["b".to_string()]), ("A".to_string(), vec![])];
    let table = ClassificationTable::from_parsed(Some(parsed));
    assert_eq!(table.categories[0].name, "B");
    assert_eq!(table.categories[1].name, "A");
    let table = ClassificationTable::from_parsed(None);
    assert_eq!(table.categories.len(), 6);
    assert_eq!(table.categories[2].extensions, vec!["exe", "msi"]);
}

#[test]
fn watch_loop_transitions() {
    assert_eq!(next_step(WatchState::Idle, WatchEvent::Created), (WatchState::Sorting, WatchAction::RunPass));
    assert_eq!(next_step(WatchState::Idle, WatchEvent::Timeout), (WatchState::Idle, WatchAction::Wait));
    assert_eq!(next_step(WatchState::Idle, WatchEvent::OtherChange), (WatchState::Idle, WatchAction::Wait));
    assert_eq!(next_step(WatchState::Idle, WatchEvent::WatchError), (WatchState::Idle, WatchAction::ReportError));
    assert_eq!(next_step(WatchState::Idle, WatchEvent::ChannelClosed), (WatchState::Stopped, WatchAction::Exit));
    assert_eq!(
        next_step(WatchState::Sorting, WatchEvent::PassFinished(SortOutcome::Deferred)),
        (WatchState::Draining, WatchAction::Sleep)
    );
    assert_eq!(next_step(WatchState::Draining, WatchEvent::RetryDue), (WatchState::Sorting, WatchAction::RunPass));
    assert_eq!(
        next_step(WatchState::Sorting, WatchEvent::PassFinished(SortOutcome::Completed)),
        (WatchState::Idle, WatchAction::Wait)
    );
    assert_eq!(next_step(WatchState::Stopped, WatchEvent::Created), (WatchState::Stopped, WatchAction::Exit));
    assert_eq!(next_step(WatchState::Draining, WatchEvent::ChannelClosed), (WatchState::Stopped, WatchAction::Exit));
}

#[test]
fn shared_extension_is_reported() {
    let table = ClassificationTable {
        categories: vec![
            Category { name: "Pictures".to_string(), extensions: vec!["png".to_string(), "svg".to_string()] },
            Category { name: "Drawings".to_string(), extensions: vec!["dxf".to_string()] },
            Category { name: "Vector".to_string(), extensions: vec!["eps".to_string(), "svg".to_string()] },
        ],
    };
    assert_eq!(table.shared_extension(), Some("svg".to_string()));
    assert_eq!(ClassificationTable::builtin().shared_extension(), None);
    assert_eq!(ClassificationTable { categories: vec![] }.shared_extension(), None);
}
