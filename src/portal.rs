use crate::chooser::{Choice, FileChooserError, FileChooserResult, FileChooserUi, Filter, FinalChoice};
use crate::response::{Response, PORTAL_CANCELLED, PORTAL_SUCCESS};
use crate::save_set::{
    free_choice, is_absolute, join, leaf, name_set, name_verdict, resolve_destinations, validate_file_names,
    SaveFilesError,
};
use crate::uri::file_url_text;
use crate::wire::{
    choice_maps, filter_maps, map_choices, map_cstr, map_filter, map_filters, map_final_choices, unmap_filter,
    wire_pairs, FileFilter, FilePath, WireChoice,
};
use vstd::prelude::*;

verus! {

/// Options of an open request.
pub struct OpenFileOptions {
    pub accept_label: Option<String>,
    pub modal: Option<bool>,
    pub multiple: Option<bool>,
    pub directory: Option<bool>,
    pub filters: Option<Vec<FileFilter>>,
    pub current_filter: Option<FileFilter>,
    pub choices: Option<Vec<WireChoice>>,
    pub current_folder: Option<FilePath>,
}

/// Options of a single-file save request.
pub struct SaveFileOptions {
    pub accept_label: Option<String>,
    pub modal: Option<bool>,
    pub multiple: Option<bool>,
    pub filters: Option<Vec<FileFilter>>,
    pub current_filter: Option<FileFilter>,
    pub choices: Option<Vec<WireChoice>>,
    pub current_name: Option<String>,
    pub current_folder: Option<FilePath>,
    pub current_filename: Option<FilePath>,
}

/// Options of a multi-file save request.
pub struct SaveFilesOptions {
    pub accept_label: Option<String>,
    pub modal: Option<bool>,
    pub choices: Option<Vec<WireChoice>>,
    pub current_folder: Option<FilePath>,
    pub files: Vec<FilePath>,
}

/// Results of an open request.
pub struct OpenFileResults {
    pub uris: Option<Vec<String>>,
    pub choices: Option<Vec<(String, String)>>,
    pub current_filter: Option<FileFilter>,
    pub writable: Option<bool>,
}

/// Results of a single-file save request.
pub struct SaveFileResults {
    pub uris: Option<Vec<String>>,
    pub choices: Option<Vec<(String, String)>>,
    pub current_filter: Option<FileFilter>,
}

/// Results of a multi-file save request.
pub struct SaveFilesResults {
    pub uris: Option<Vec<String>>,
    pub choices: Option<Vec<(String, String)>>,
}

impl OpenFileResults {
    /// No field is present.
    pub open spec fn is_empty(&self) -> bool {
        self.uris is None && self.choices is None && self.current_filter is None && self.writable is None
    }
}

impl SaveFileResults {
    /// No field is present.
    pub open spec fn is_empty(&self) -> bool {
        self.uris is None && self.choices is None && self.current_filter is None
    }
}

impl SaveFilesResults {
    /// No field is present.
    pub open spec fn is_empty(&self) -> bool {
        self.uris is None && self.choices is None
    }
}

impl Default for OpenFileResults {
    fn default() -> (r: Self)
        ensures
            r.is_empty(),
    {
        OpenFileResults { uris: None, choices: None, current_filter: None, writable: None }
    }
}

impl Default for SaveFileResults {
    fn default() -> (r: Self)
        ensures
            r.is_empty(),
    {
        SaveFileResults { uris: None, choices: None, current_filter: None }
    }
}

impl Default for SaveFilesResults {
    fn default() -> (r: Self)
        ensures
            r.is_empty(),
    {
        SaveFilesResults { uris: None, choices: None }
    }
}

/// The flag's value, or `d` when it is absent.
pub open spec fn flag_or(o: Option<bool>, d: bool) -> bool {
    match o {
        Some(b) => b,
        None => d,
    }
}

/// `f` is what the optional wire filter list `w` maps to, in order.
pub open spec fn filters_map(w: Option<Vec<FileFilter>>, f: Option<Vec<Filter>>) -> bool {
    match (w, f) {
        (None, None) => true,
        (Some(a), Some(b)) => b@.len() == a@.len() && forall|i: int|
            0 <= i < a@.len() ==> filter_maps(a@[i], #[trigger] b@[i]),
        _ => false,
    }
}

/// `f` is what the optional wire filter `w` maps to.
pub open spec fn current_filter_maps(w: Option<FileFilter>, f: Option<Filter>) -> bool {
    match (w, f) {
        (None, None) => true,
        (Some(a), Some(b)) => filter_maps(a, b),
        _ => false,
    }
}

/// `c` is what the optional wire choice list `w` maps to, in order.
pub open spec fn choices_map(w: Option<Vec<WireChoice>>, c: Option<Vec<Choice>>) -> bool {
    match (w, c) {
        (None, None) => true,
        (Some(a), Some(b)) => b@.len() == a@.len() && forall|i: int|
            0 <= i < a@.len() ==> choice_maps(a@[i], #[trigger] b@[i]),
        _ => false,
    }
}

/// `p` is the text of the optional path field `w`.
pub open spec fn path_maps(w: Option<FilePath>, p: Option<String>) -> bool {
    match (w, p) {
        (None, None) => true,
        (Some(a), Some(b)) => b@ == a.0@,
        _ => false,
    }
}

/// `w` is the wire form of the final choices `c`.
pub open spec fn final_choices_map(c: Option<Vec<FinalChoice>>, w: Option<Vec<(String, String)>>) -> bool {
    match (c, w) {
        (None, None) => true,
        (Some(a), Some(b)) => b@.len() == a@.len() && forall|i: int|
            0 <= i < a@.len() ==> (#[trigger] b@[i]).0@ == a@[i].id@ && b@[i].1@ == a@[i].variant_id@,
        _ => false,
    }
}

/// `w` is the wire form of the filter `f`.
pub open spec fn filter_unmaps(f: Option<Filter>, w: Option<FileFilter>) -> bool {
    match (f, w) {
        (None, None) => true,
        (Some(a), Some(b)) => b.0@ == a.name@ && wire_pairs(b.1@) == a.rules(),
        _ => false,
    }
}

fn map_opt_filters(w: Option<Vec<FileFilter>>) -> (r: Option<Vec<Filter>>)
    ensures
        filters_map(w, r),
{
    match w {
        Some(f) => Some(map_filters(f)),
        None => None,
    }
}

fn map_opt_filter(w: Option<FileFilter>) -> (r: Option<Filter>)
    ensures
        current_filter_maps(w, r),
{
    match w {
        Some(f) => Some(map_filter(f)),
        None => None,
    }
}

fn map_opt_choices(w: Option<Vec<WireChoice>>) -> (r: Option<Vec<Choice>>)
    ensures
        choices_map(w, r),
{
    match w {
        Some(c) => Some(map_choices(c)),
        None => None,
    }
}

fn map_opt_path(w: Option<FilePath>) -> (r: Option<String>)
    ensures
        path_maps(w, r),
{
    match w {
        Some(p) => Some(map_cstr(p)),
        None => None,
    }
}

fn map_opt_final_choices(c: Option<Vec<FinalChoice>>) -> (r: Option<Vec<(String, String)>>)
    ensures
        final_choices_map(c, r),
{
    match c {
        Some(c) => Some(map_final_choices(c)),
        None => None,
    }
}

fn unmap_opt_filter(f: Option<Filter>) -> (r: Option<FileFilter>)
    ensures
        filter_unmaps(f, r),
{
    match f {
        Some(f) => Some(unmap_filter(f)),
        None => None,
    }
}

/// The chooser session of an open request: folder mode when `directory` is
/// set, single selection and modal unless the options say otherwise.
pub fn open_file_ui(app_id: String, parent_window: String, title: String, options: OpenFileOptions) -> (r: FileChooserUi)
    ensures
        r.title == title,
        r.app_id == app_id,
        r.parent_window == parent_window,
        r.multiple == flag_or(options.multiple, false),
        r.modal == flag_or(options.modal, true),
        r.directory == flag_or(options.directory, false),
        !r.save,
        r.accept_label == options.accept_label,
        filters_map(options.filters, r.filters),
        current_filter_maps(options.current_filter, r.current_filter),
        choices_map(options.choices, r.choices),
        path_maps(options.current_folder, r.current_folder),
        r.current_name is None,
        r.current_filename is None,
{
    FileChooserUi {
        title,
        multiple: match options.multiple {
            Some(b) => b,
            None => false,
        },
        accept_label: options.accept_label,
        modal: match options.modal {
            Some(b) => b,
            None => true,
        },
        directory: match options.directory {
            Some(b) => b,
            None => false,
        },
        filters: map_opt_filters(options.filters),
        current_filter: map_opt_filter(options.current_filter),
        current_name: None,
        current_folder: map_opt_path(options.current_folder),
        current_filename: None,
        choices: map_opt_choices(options.choices),
        save: false,
        parent_window,
        app_id,
    }
}

/// The chooser session of a single-file save request.
pub fn save_file_ui(app_id: String, parent_window: String, title: String, options: SaveFileOptions) -> (r: FileChooserUi)
    ensures
        r.title == title,
        r.app_id == app_id,
        r.parent_window == parent_window,
        r.multiple == flag_or(options.multiple, false),
        r.modal == flag_or(options.modal, true),
        !r.directory,
        r.save,
        r.accept_label == options.accept_label,
        filters_map(options.filters, r.filters),
        current_filter_maps(options.current_filter, r.current_filter),
        choices_map(options.choices, r.choices),
        path_maps(options.current_folder, r.current_folder),
        r.current_name == options.current_name,
        path_maps(options.current_filename, r.current_filename),
{
    FileChooserUi {
        title,
        multiple: match options.multiple {
            Some(b) => b,
            None => false,
        },
        accept_label: options.accept_label,
        modal: match options.modal {
            Some(b) => b,
            None => true,
        },
        directory: false,
        filters: map_opt_filters(options.filters),
        current_filter: map_opt_filter(options.current_filter),
        current_name: options.current_name,
        current_folder: map_opt_path(options.current_folder),
        current_filename: map_opt_path(options.current_filename),
        choices: map_opt_choices(options.choices),
        save: true,
        parent_window,
        app_id,
    }
}

fn file_names(files: &Vec<FilePath>) -> (r: Vec<String>)
    ensures
        r@.len() == files@.len(),
        forall|i: int| 0 <= i < files@.len() ==> (#[trigger] r@[i])@ == files@[i].0@,
{
    let mut r: Vec<String> = Vec::new();
    let mut i: usize = 0;
    while i < files.len()
        invariant
            i <= files@.len(),
            r@.len() == i,
            forall|j: int| 0 <= j < i ==> (#[trigger] r@[j])@ == files@[j].0@,
        decreases files@.len() - i,
    {
        r.push(files[i].0.clone());
        i = i + 1;
    }
    r
}

/// Checks the requested names of a multi-file save and, when all pass,
/// gives the directory-picking session that comes next. The first refused
/// name decides the error; nothing is presented then.
pub fn save_files_ui(app_id: String, parent_window: String, title: String, options: SaveFilesOptions) -> (r: Result<FileChooserUi, SaveFilesError>)
    ensures
        r is Ok <==> forall|k: int| 0 <= k < options.files@.len() ==> name_verdict(#[trigger] options.files@[k].0@) is Ok,
        r matches Err(e) ==> exists|k: int|
            0 <= k < options.files@.len() && Err::<(), SaveFilesError>(e) == name_verdict(#[trigger] options.files@[k].0@)
                && forall|j: int| 0 <= j < k ==> name_verdict(#[trigger] options.files@[j].0@) is Ok,
        r matches Ok(ui) ==> {
            &&& ui.title == title
            &&& ui.app_id == app_id
            &&& ui.parent_window == parent_window
            &&& !ui.multiple
            &&& ui.modal == flag_or(options.modal, true)
            &&& ui.directory
            &&& ui.save
            &&& ui.accept_label == options.accept_label
            &&& ui.filters is None
            &&& ui.current_filter is None
            &&& ui.current_name is None
            &&& ui.current_filename is None
            &&& choices_map(options.choices, ui.choices)
            &&& path_maps(options.current_folder, ui.current_folder)
        },
{
    let names = file_names(&options.files);
    let v = validate_file_names(&names);
    match v {
        Ok(()) => {
            assert forall|k: int| 0 <= k < options.files@.len() implies name_verdict(
                #[trigger] options.files@[k].0@,
            ) is Ok by {
                assert(names@[k]@ == options.files@[k].0@);
            }
        },
        Err(e) => {
            proof {
                let k = choose|k: int|
                    0 <= k < names@.len() && v == name_verdict(#[trigger] names@[k]@) && forall|j: int|
                        0 <= j < k ==> name_verdict(#[trigger] names@[j]@) is Ok;
                assert(names@[k]@ == options.files@[k].0@);
                assert forall|j: int| 0 <= j < k implies name_verdict(#[trigger] options.files@[j].0@) is Ok by {
                    assert(names@[j]@ == options.files@[j].0@);
                }
                assert(!(name_verdict(options.files@[k].0@) is Ok));
            }
            return Err(e);
        },
    }
    Ok(FileChooserUi {
        title,
        multiple: false,
        accept_label: options.accept_label,
        modal: match options.modal {
            Some(b) => b,
            None => true,
        },
        directory: true,
        filters: None,
        current_filter: None,
        current_name: None,
        current_folder: map_opt_path(options.current_folder),
        current_filename: None,
        choices: map_opt_choices(options.choices),
        save: true,
        parent_window,
        app_id,
    })
}

/// The error of a multi-file save whose chooser session failed.
pub fn ui_error(e: FileChooserError) -> (r: SaveFilesError)
    ensures
        e == FileChooserError::Closed ==> r == SaveFilesError::UiClosed,
        e == FileChooserError::Rejected ==> r == SaveFilesError::UiRejected,
{
    match e {
        FileChooserError::Closed => SaveFilesError::UiClosed,
        FileChooserError::Rejected => SaveFilesError::UiRejected,
    }
}

/// The results of a multi-file save once the user picked the directory
/// `dir`, which holds `listing`: one destination URI per requested name, in
/// order, each the name itself or its first free numbered variant.
pub fn save_files_results(
    files: &Vec<FilePath>,
    dir: &String,
    listing: &Vec<String>,
    final_choices: Option<Vec<FinalChoice>>,
) -> (r: Result<SaveFilesResults, SaveFilesError>)
    ensures
        r is Ok <==> forall|k: int|
            0 <= k < files@.len() ==> is_absolute(join(dir@, free_choice(name_set(listing@), #[trigger] leaf(files@[k].0@)))),
        is_absolute(dir@) ==> r is Ok,
        r is Err ==> r == Err::<SaveFilesResults, SaveFilesError>(SaveFilesError::UniqueNotValidUri),
        r matches Ok(res) ==> {
            &&& res.uris matches Some(uris)
            &&& uris@.len() == files@.len()
            &&& forall|k: int|
                0 <= k < files@.len() ==> (#[trigger] uris@[k])@ == file_url_text(
                    join(dir@, free_choice(name_set(listing@), leaf(files@[k].0@))),
                )
            &&& final_choices_map(final_choices, res.choices)
        },
{
    let uris = match resolve_destinations(dir, listing, files) {
        Ok(u) => u,
        Err(e) => {
            return Err(e);
        },
    };
    Ok(SaveFilesResults { uris: Some(uris), choices: map_opt_final_choices(final_choices) })
}

/// The reply to an open request, from the chooser's outcome.
pub fn open_file_response(res: Result<FileChooserResult, FileChooserError>) -> (r: Response<OpenFileResults>)
    ensures
        res is Err ==> r.status == PORTAL_CANCELLED && r.payload.is_empty(),
        res matches Ok(o) ==> {
            &&& r.status == PORTAL_SUCCESS
            &&& r.payload.uris == Some(o.uris)
            &&& final_choices_map(o.final_choices, r.payload.choices)
            &&& filter_unmaps(o.current_filter, r.payload.current_filter)
            &&& r.payload.writable == Some(o.writeable)
        },
{
    match res {
        Ok(o) => Response::success(
            OpenFileResults {
                uris: Some(o.uris),
                choices: map_opt_final_choices(o.final_choices),
                current_filter: unmap_opt_filter(o.current_filter),
                writable: Some(o.writeable),
            },
        ),
        Err(_) => Response::cancelled(),
    }
}

/// The reply to a single-file save request, from the chooser's outcome.
pub fn save_file_response(res: Result<FileChooserResult, FileChooserError>) -> (r: Response<SaveFileResults>)
    ensures
        res is Err ==> r.status == PORTAL_CANCELLED && r.payload.is_empty(),
        res matches Ok(o) ==> {
            &&& r.status == PORTAL_SUCCESS
            &&& r.payload.uris == Some(o.uris)
            &&& final_choices_map(o.final_choices, r.payload.choices)
            &&& filter_unmaps(o.current_filter, r.payload.current_filter)
        },
{
    match res {
        Ok(o) => Response::success(
            SaveFileResults {
                uris: Some(o.uris),
                choices: map_opt_final_choices(o.final_choices),
                current_filter: unmap_opt_filter(o.current_filter),
            },
        ),
        Err(_) => Response::cancelled(),
    }
}

/// The reply to a multi-file save request: its results, or a cancelled
/// reply with no payload when any step failed.
pub fn save_files_response(res: Result<SaveFilesResults, SaveFilesError>) -> (r: Response<SaveFilesResults>)
    ensures
        res is Err ==> r.status == PORTAL_CANCELLED && r.payload.is_empty(),
        res matches Ok(o) ==> r.status == PORTAL_SUCCESS && r.payload == o,
{
    match res {
        Ok(o) => Response::success(o),
        Err(_) => Response::cancelled(),
    }
}

} // verus!
