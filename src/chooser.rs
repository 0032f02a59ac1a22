use vstd::prelude::*;

verus! {

/// Why a chooser session produced no outcome.
#[derive(Clone, Copy, Debug, PartialEq, Eq, Structural)]
pub enum FileChooserError {
    /// The session could not be started.
    Closed,
    /// The user dismissed the chooser.
    Rejected,
}

/// One rule of a filter.
#[derive(Clone, Debug)]
pub enum FilterKind {
    Glob(String),
    Mime(String),
}

impl FilterKind {
    /// The rule as a wire pair: code 0 for a glob, 1 for a MIME type.
    pub open spec fn wire_rule(self) -> (u32, Seq<char>) {
        match self {
            FilterKind::Glob(v) => (0u32, v@),
            FilterKind::Mime(v) => (1u32, v@),
        }
    }
}

impl PartialEq for FilterKind {
    fn eq(&self, o: &FilterKind) -> (r: bool) {
        match self {
            FilterKind::Glob(a) => match o {
                FilterKind::Glob(b) => a.eq(b),
                FilterKind::Mime(_) => false,
            },
            FilterKind::Mime(a) => match o {
                FilterKind::Glob(_) => false,
                FilterKind::Mime(b) => a.eq(b),
            },
        }
    }
}

impl vstd::std_specs::cmp::PartialEqSpecImpl for FilterKind {
    open spec fn obeys_eq_spec() -> bool {
        true
    }

    open spec fn eq_spec(&self, o: &FilterKind) -> bool {
        self.wire_rule() == o.wire_rule()
    }
}

impl Eq for FilterKind {}

/// A named, ordered list of rules.
#[derive(Clone, Debug)]
pub struct Filter {
    pub name: String,
    pub elements: Vec<FilterKind>,
}

impl Filter {
    /// The rules as wire pairs, in order.
    pub open spec fn rules(self) -> Seq<(u32, Seq<char>)> {
        self.elements@.map_values(|k: FilterKind| k.wire_rule())
    }
}

impl PartialEq for Filter {
    fn eq(&self, o: &Filter) -> (r: bool) {
        if !self.name.eq(&o.name) {
            return false;
        }
        if self.elements.len() != o.elements.len() {
            assert(self.rules().len() != o.rules().len());
            return false;
        }
        let mut i: usize = 0;
        while i < self.elements.len()
            invariant
                self.elements@.len() == o.elements@.len(),
                i <= self.elements@.len(),
                forall|j: int| 0 <= j < i ==> self.elements@[j].wire_rule() == o.elements@[j].wire_rule(),
            decreases self.elements@.len() - i,
        {
            if !self.elements[i].eq(&o.elements[i]) {
                assert(self.rules()[i as int] != o.rules()[i as int]);
                return false;
            }
            i = i + 1;
        }
        assert(self.rules() =~= o.rules());
        true
    }
}

impl vstd::std_specs::cmp::PartialEqSpecImpl for Filter {
    open spec fn obeys_eq_spec() -> bool {
        true
    }

    open spec fn eq_spec(&self, o: &Filter) -> bool {
        self.name@ == o.name@ && self.rules() == o.rules()
    }
}

impl Eq for Filter {}

/// An auxiliary option offered beside the file list.
#[derive(Clone, Debug)]
pub struct Choice {
    pub id: String,
    pub label: String,
    pub default: String,
    pub variants: Vec<ChoiceVariant>,
}

/// One value that a choice can take.
#[derive(Clone, Debug)]
pub struct ChoiceVariant {
    pub id: String,
    pub label: String,
}

/// The value that the user left a choice at.
#[derive(Clone, Debug)]
pub struct FinalChoice {
    pub id: String,
    pub variant_id: String,
}

/// What the chooser is asked to pick.
#[derive(Clone, Copy, Debug, PartialEq, Eq, Structural)]
pub enum ChooserMode {
    Open,
    Save,
    SelectFolder,
}

/// The description of one chooser session.
#[derive(Clone, Debug)]
pub struct FileChooserUi {
    pub title: String,
    pub multiple: bool,
    pub accept_label: Option<String>,
    pub modal: bool,
    pub directory: bool,
    pub filters: Option<Vec<Filter>>,
    pub current_filter: Option<Filter>,
    pub current_name: Option<String>,
    pub current_folder: Option<String>,
    pub current_filename: Option<String>,
    pub choices: Option<Vec<Choice>>,
    pub save: bool,
    pub parent_window: String,
    pub app_id: String,
}

/// What a chooser session produced.
#[derive(Clone, Debug)]
pub struct FileChooserResult {
    pub uris: Vec<String>,
    pub current_filter: Option<Filter>,
    pub final_choices: Option<Vec<FinalChoice>>,
    pub writeable: bool,
}

/// The mode that the `directory` and `save` flags select.
pub open spec fn mode_of(directory: bool, save: bool) -> ChooserMode {
    if directory {
        ChooserMode::SelectFolder
    } else if save {
        ChooserMode::Save
    } else {
        ChooserMode::Open
    }
}

/// The id that the read-only choice is tried under first.
pub open spec fn read_only_base() -> Seq<char> {
    seq!['_', 'r', 'e', 'a', 'd', '_', 'o', 'n', 'l', 'y']
}

/// `read_only_base` followed by `k` underscores.
pub open spec fn read_only_candidate(k: nat) -> Seq<char>
    decreases k,
{
    if k == 0 {
        read_only_base()
    } else {
        read_only_candidate((k - 1) as nat).push('_')
    }
}

/// Whether one of `choices` has the id `id`.
pub open spec fn has_choice_id(choices: Seq<Choice>, id: Seq<char>) -> bool {
    exists|i: int| 0 <= i < choices.len() && (#[trigger] choices[i]).id@ == id
}

/// The `(id, variant)` pairs of the choices that the dialog reported a
/// value for, among the first `n` choices, in order.
pub open spec fn picked_upto(cs: Seq<Choice>, picked: Seq<Option<String>>, n: nat) -> Seq<(Seq<char>, Seq<char>)>
    decreases n,
{
    if n == 0 {
        Seq::empty()
    } else {
        let prev = picked_upto(cs, picked, (n - 1) as nat);
        let i = n - 1;
        if i < picked.len() && picked[i] is Some {
            prev.push((cs[i].id@, picked[i]->Some_0@))
        } else {
            prev
        }
    }
}

/// The final choices as `(id, variant)` pairs.
pub open spec fn final_pairs(fs: Seq<FinalChoice>) -> Seq<(Seq<char>, Seq<char>)> {
    fs.map_values(|f: FinalChoice| (f.id@, f.variant_id@))
}

/// The prefix that marks a Wayland parent-window handle.
pub open spec fn wayland_prefix() -> Seq<char> {
    seq!['w', 'a', 'y', 'l', 'a', 'n', 'd', ':']
}

/// The exported Wayland handle of a parent-window token, if it is one.
pub fn wayland_parent(parent_window: &String) -> (r: Option<String>)
    ensures
        r is Some <==> parent_window@.len() >= 8 && parent_window@.subrange(0, 8) == wayland_prefix(),
        r matches Some(h) ==> h@ == parent_window@.subrange(8, parent_window@.len() as int),
{
    proof { reveal_strlit("wayland:"); }
    let s = parent_window.as_str();
    let n = s.unicode_len();
    if n < 8 {
        return None;
    }
    let head = String::from_str(s.substring_char(0, 8));
    let prefix = String::from_str("wayland:");
    assert(prefix@ =~= wayland_prefix());
    if head == prefix {
        Some(String::from_str(s.substring_char(8, n)))
    } else {
        None
    }
}

impl FileChooserUi {
    /// The outcome of an accepted session, from what the dialog reports:
    /// the selected URIs, the active filter, the value of each of the
    /// session's choices (by position; absent when the dialog has none), and
    /// the value of the read-only choice. Final choices are present exactly
    /// when the session had choices; the files are writable exactly when the
    /// read-only choice was left at `false`.
    pub fn outcome(
        &self,
        uris: Vec<String>,
        current_filter: Option<Filter>,
        picked: Vec<Option<String>>,
        read_only_value: Option<String>,
    ) -> (r: FileChooserResult)
        ensures
            r.uris == uris,
            r.current_filter == current_filter,
            self.choices is None ==> r.final_choices is None,
            self.choices matches Some(cs) ==> r.final_choices matches Some(fs) && final_pairs(fs@) == picked_upto(
                cs@,
                picked@,
                cs@.len(),
            ),
            r.writeable == (read_only_value matches Some(v) && v@ == seq!['f', 'a', 'l', 's', 'e']),
    {
        proof { reveal_strlit("false"); }
        let no = String::from_str("false");
        assert(no@ =~= seq!['f', 'a', 'l', 's', 'e']);
        let writeable = match &read_only_value {
            Some(v) => *v == no,
            None => false,
        };
        let final_choices = match &self.choices {
            None => None,
            Some(cs) => {
                let mut fs: Vec<FinalChoice> = Vec::new();
                let mut i: usize = 0;
                while i < cs.len()
                    invariant
                        i <= cs@.len(),
                        final_pairs(fs@) =~= picked_upto(cs@, picked@, i as nat),
                    decreases cs@.len() - i,
                {
                    if i < picked.len() {
                        match &picked[i] {
                            Some(v) => {
                                fs.push(FinalChoice { id: cs[i].id.clone(), variant_id: v.clone() });
                            },
                            None => {},
                        }
                    }
                    assert(final_pairs(fs@) =~= picked_upto(cs@, picked@, (i + 1) as nat));
                    i = i + 1;
                }
                Some(fs)
            },
        };
        FileChooserResult { uris, current_filter, final_choices, writeable }
    }

    /// The mode of the session: picking a folder, saving, or opening.
    pub fn mode(&self) -> (r: ChooserMode)
        ensures
            r == mode_of(self.directory, self.save),
    {
        if self.directory {
            ChooserMode::SelectFolder
        } else if self.save {
            ChooserMode::Save
        } else {
            ChooserMode::Open
        }
    }

    /// The id of the read-only choice that an open session adds: the first
    /// of `_read_only`, `_read_only_`, `_read_only__`, ... that no choice of
    /// the session uses.
    pub fn read_only_choice_id(&self) -> (r: String)
        ensures
            ({
                let cs = match self.choices {
                    Some(v) => v@,
                    None => Seq::<Choice>::empty(),
                };
                exists|k: nat|
                    r@ == read_only_candidate(k) && !has_choice_id(cs, r@) && forall|j: nat|
                        j < k ==> has_choice_id(cs, #[trigger] read_only_candidate(j))
            }),
    {
        let empty: Vec<Choice> = Vec::new();
        let cs: &Vec<Choice> = match &self.choices {
            Some(v) => v,
            None => &empty,
        };
        assert(cs@ == match self.choices {
            Some(v) => v@,
            None => Seq::<Choice>::empty(),
        });
        let mut longest: usize = 0;
        let mut i: usize = 0;
        while i < cs.len()
            invariant
                i <= cs@.len(),
                forall|j: int| 0 <= j < i ==> (#[trigger] cs@[j]).id@.len() <= longest,
            decreases cs@.len() - i,
        {
            let l = cs[i].id.as_str().unicode_len();
            if l > longest {
                longest = l;
            }
            i = i + 1;
        }
        proof { reveal_strlit("_read_only"); reveal_strlit("_"); }
        let mut r = String::from_str("_read_only");
        let ghost mut k: nat = 0;
        assert(r@ =~= read_only_candidate(0));
        loop
            invariant
                r@ == read_only_candidate(k),
                r@.len() == 10 + k,
                forall|j: int| 0 <= j < cs@.len() ==> (#[trigger] cs@[j]).id@.len() <= longest,
                forall|j: nat| j < k ==> has_choice_id(cs@, #[trigger] read_only_candidate(j)),
                cs@ == match self.choices {
                    Some(v) => v@,
                    None => Seq::<Choice>::empty(),
                },
            decreases longest + 1 - r@.len(),
        {
            let mut found = false;
            let mut i: usize = 0;
            while i < cs.len()
                invariant
                    i <= cs@.len(),
                    found == has_choice_id(cs@.subrange(0, i as int), r@),
                decreases cs@.len() - i,
            {
                let ghost pre = cs@.subrange(0, i as int);
                let ghost post = cs@.subrange(0, i + 1);
                if cs[i].id == r {
                    found = true;
                    assert(post[i as int].id@ == r@);
                } else if found {
                    proof {
                        let w = choose|w: int| 0 <= w < pre.len() && (#[trigger] pre[w]).id@ == r@;
                        assert(post[w] == pre[w]);
                    }
                }
                proof {
                    if has_choice_id(post, r@) && !found {
                        let w = choose|w: int| 0 <= w < post.len() && (#[trigger] post[w]).id@ == r@;
                        if w < i {
                            assert(pre[w] == post[w]);
                        }
                    }
                }
                i = i + 1;
            }
            assert(cs@.subrange(0, cs@.len() as int) =~= cs@);
            if !found {
                assert(r@ == read_only_candidate(k) && !has_choice_id(cs@, r@));
                return r;
            }
            proof {
                let w = choose|w: int| 0 <= w < cs@.len() && (#[trigger] cs@[w]).id@ == r@;
                assert(cs@[w].id@.len() <= longest);
            }
            let ghost prev = r@;
            proof { reveal_strlit("_"); }
            r.append("_");
            proof {
                k = k + 1;
                assert(read_only_candidate(k) == read_only_candidate((k - 1) as nat).push('_'));
                assert(r@ =~= prev.push('_'));
            }
        }
    }
}

} // verus!
