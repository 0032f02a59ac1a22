use portal_gtk::chooser::{ChooserMode, Choice, FileChooserError, FileChooserResult, Filter, FilterKind, FinalChoice};
use portal_gtk::chooser::wayland_parent;
use portal_gtk::portal::{
    open_file_response, open_file_ui, save_file_response, save_file_ui, save_files_response, save_files_results,
    save_files_ui, ui_error, OpenFileOptions, SaveFileOptions, SaveFilesOptions, SaveFilesResults,
};
use portal_gtk::response::{Response, PORTAL_CANCELLED, PORTAL_SUCCESS};
use portal_gtk::save_set::SaveFilesError;
use portal_gtk::wire::FilePath;

fn open_options() -> OpenFileOptions {
    OpenFileOptions {
        accept_label: None,
        modal: None,
        multiple: None,
        directory: None,
        filters: None,
        current_filter: None,
        choices: None,
        current_folder: None,
    }
}

fn save_files_options(files: &[&str]) -> SaveFilesOptions {
    SaveFilesOptions {
        accept_label: None,
        modal: None,
        choices: None,
        current_folder: Some(FilePath("/home/u".to_string())),
        files: files.iter().map(|f| FilePath(f.to_string())).collect(),
    }
}

fn choice(id: &str) -> Choice {
    Choice { id: id.to_string(), label: id.to_string(), default: String::new(), variants: Vec::new() }
}

#[test]
fn open_defaults() {
    let ui = open_file_ui("app".to_string(), "x11:1".to_string(), "Open".to_string(), open_options());
    assert!(!ui.multiple);
    assert!(ui.modal);
    assert!(!ui.directory);
    assert!(!ui.save);
    assert_eq!(ui.mode(), ChooserMode::Open);
    assert_eq!(ui.title, "Open");
    assert_eq!(ui.app_id, "app");
    assert!(ui.filters.is_none());
}

#[test]
fn open_directory_selects_folder() {
    let mut o = open_options();
    o.directory = Some(true);
    o.multiple = Some(true);
    o.modal = Some(false);
    o.current_folder = Some(FilePath("/tmp".to_string()));
    o.filters = Some(vec![("Any".to_string(), vec![(0, "*".to_string())])]);
    let ui = open_file_ui(String::new(), String::new(), String::new(), o);
    assert_eq!(ui.mode(), ChooserMode::SelectFolder);
    assert!(ui.multiple);
    assert!(!ui.modal);
    assert_eq!(ui.current_folder, Some("/tmp".to_string()));
    assert_eq!(ui.filters.unwrap()[0].name, "Any");
}

#[test]
fn save_mode_and_names() {
    let o = SaveFileOptions {
        accept_label: Some("Export".to_string()),
        modal: None,
        multiple: None,
        filters: None,
        current_filter: Some(("Text".to_string(), vec![(0, "*.txt".to_string())])),
        choices: None,
        current_name: Some("a.txt".to_string()),
        current_folder: None,
        current_filename: Some(FilePath("/tmp/a.txt".to_string())),
    };
    let ui = save_file_ui(String::new(), String::new(), String::new(), o);
    assert_eq!(ui.mode(), ChooserMode::Save);
    assert_eq!(ui.accept_label, Some("Export".to_string()));
    assert_eq!(ui.current_name, Some("a.txt".to_string()));
    assert_eq!(ui.current_filename, Some("/tmp/a.txt".to_string()));
    assert_eq!(ui.current_filter.unwrap().name, "Text");
}

#[test]
fn save_files_validates_before_presenting() {
    let r = save_files_ui(String::new(), String::new(), String::new(), save_files_options(&["ok", "/etc/passwd"]));
    assert_eq!(r.err(), Some(SaveFilesError::AbsolutePath));
    let r = save_files_ui(String::new(), String::new(), String::new(), save_files_options(&["..", "a/b"]));
    assert_eq!(r.err(), Some(SaveFilesError::SpecialPath));
    let ui = save_files_ui(String::new(), String::new(), String::new(), save_files_options(&["ok"])).unwrap();
    assert_eq!(ui.mode(), ChooserMode::SelectFolder);
    assert!(ui.save);
    assert!(!ui.multiple);
    assert_eq!(ui.current_folder, Some("/home/u".to_string()));
}

#[test]
fn save_files_scenario_results() {
    let files = vec![FilePath("report.txt".to_string()), FilePath("notes".to_string())];
    let listing = vec!["report.txt".to_string(), "notes".to_string()];
    let choices = Some(vec![FinalChoice { id: "c".to_string(), variant_id: "v".to_string() }]);
    let res = save_files_results(&files, &"/d".to_string(), &listing, choices).unwrap();
    assert_eq!(
        res.uris,
        Some(vec!["file:///d/report%20(1).txt".to_string(), "file:///d/notes%20(1)".to_string()])
    );
    assert_eq!(res.choices, Some(vec![("c".to_string(), "v".to_string())]));
}

#[test]
fn save_files_failure_is_cancelled_and_empty() {
    let r = save_files_response(Err(SaveFilesError::NotExactlyOnePath));
    assert_eq!(r.status, PORTAL_CANCELLED);
    assert!(r.payload.uris.is_none() && r.payload.choices.is_none());
    let ok = save_files_response(Ok(SaveFilesResults { uris: Some(vec!["file:///x".to_string()]), choices: None }));
    assert_eq!(ok.status, PORTAL_SUCCESS);
    assert_eq!(ok.payload.uris, Some(vec!["file:///x".to_string()]));
}

#[test]
fn ui_errors_map() {
    assert_eq!(ui_error(FileChooserError::Closed), SaveFilesError::UiClosed);
    assert_eq!(ui_error(FileChooserError::Rejected), SaveFilesError::UiRejected);
}

#[test]
fn open_response_maps_outcome() {
    let outcome = FileChooserResult {
        uris: vec!["file:///a".to_string()],
        current_filter: Some(Filter { name: "T".to_string(), elements: vec![FilterKind::Mime("text/plain".to_string())] }),
        final_choices: None,
        writeable: true,
    };
    let r = open_file_response(Ok(outcome));
    assert_eq!(r.status, PORTAL_SUCCESS);
    assert_eq!(r.payload.uris, Some(vec!["file:///a".to_string()]));
    assert_eq!(r.payload.current_filter, Some(("T".to_string(), vec![(1, "text/plain".to_string())])));
    assert!(r.payload.choices.is_none());
    assert_eq!(r.payload.writable, Some(true));
}

#[test]
fn rejected_interaction_is_cancelled() {
    let r = open_file_response(Err(FileChooserError::Rejected));
    assert_eq!(r.status, PORTAL_CANCELLED);
    assert!(r.payload.uris.is_none() && r.payload.writable.is_none() && r.payload.current_filter.is_none());
    let r = save_file_response(Err(FileChooserError::Closed));
    assert_eq!(r.status, 1);
    assert!(r.payload.uris.is_none() && r.payload.choices.is_none());
}

#[test]
fn envelope_codes() {
    let r: Response<u32> = Response::success(5);
    assert_eq!((r.status, r.payload), (0, 5));
    let c: Response<Vec<String>> = Response::cancelled();
    assert_eq!(c.status, 1);
    assert!(c.payload.is_empty());
}

#[test]
fn read_only_id_avoids_client_choices() {
    let mut ui = open_file_ui(String::new(), String::new(), String::new(), open_options());
    assert_eq!(ui.read_only_choice_id(), "_read_only");
    ui.choices = Some(vec![choice("_read_only"), choice("x"), choice("_read_only_")]);
    assert_eq!(ui.read_only_choice_id(), "_read_only__");
}

#[test]
fn outcome_collects_choices() {
    let mut ui = open_file_ui(String::new(), String::new(), String::new(), open_options());
    let r = ui.outcome(vec!["file:///a".to_string()], None, Vec::new(), Some("true".to_string()));
    assert!(r.final_choices.is_none());
    assert!(!r.writeable);
    ui.choices = Some(vec![choice("a"), choice("b")]);
    let r = ui.outcome(Vec::new(), None, vec![None, Some("2".to_string())], Some("false".to_string()));
    let fs = r.final_choices.unwrap();
    assert_eq!(fs.len(), 1);
    assert_eq!(fs[0].id, "b");
    assert_eq!(fs[0].variant_id, "2");
    assert!(r.writeable);
}

#[test]
fn wayland_parent_handle() {
    assert_eq!(wayland_parent(&"wayland:abc".to_string()), Some("abc".to_string()));
    assert_eq!(wayland_parent(&"x11:12".to_string()), None);
    assert_eq!(wayland_parent(&"wayland".to_string()), None);
}
