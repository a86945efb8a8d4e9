use vstd::prelude::*;
use crate::table::LabelTable;

verus! {

/// What `Path::file_name` gives for a path: its last normal component, if
/// it has one.
pub uninterp spec fn file_name_of(path: Seq<char>) -> Option<Seq<char>>;

/// Relies on std::path::Path::file_name, for the last component of a path as
/// the target platform splits it.
/// A component of a `&str` is valid UTF-8, so the lossy conversion keeps it.
#[verifier::external_body]
fn path_file_name(path: &str) -> (r: Option<String>)
    ensures
        match r {
            Some(n) => file_name_of(path@) == Some(n@),
            None => file_name_of(path@) == None::<Seq<char>>,
        },
{
    match std::path::Path::new(path).file_name() {
        Some(n) => Some(n.to_string_lossy().into_owned()),
        None => None,
    }
}

/// Whether `c` is a digit of lowercase hexadecimal.
pub open spec fn is_lower_hex(c: char) -> bool {
    ('0' <= c && c <= '9') || ('a' <= c && c <= 'f')
}

/// The shape of a hyphenated UUID: 36 characters, hyphens at 8, 13, 18 and
/// 23, lowercase hexadecimal digits elsewhere.
pub open spec fn is_hyphenated_uuid(s: Seq<char>) -> bool {
    &&& s.len() == 36
    &&& forall|i: int| 0 <= i < 36 ==> if i == 8 || i == 13 || i == 18 || i == 23 {
        #[trigger] s[i] == '-'
    } else {
        is_lower_hex(s[i])
    }
}

/// Relies on uuid::Uuid::new_v4 for a random version 4 UUID, written in the
/// crate's hyphenated lowercase form by its Display impl.
#[verifier::external_body]
fn random_uuid() -> (r: String)
    ensures
        is_hyphenated_uuid(r@),
{
    uuid::Uuid::new_v4().to_string()
}

/// The display name of a workspace: the last component of its path, or
/// `Vault` when the path has none.
pub open spec fn vault_name(path: Seq<char>) -> Seq<char> {
    match file_name_of(path) {
        Some(n) => n,
        None => "Vault"@,
    }
}

/// The open windows, each with the workspace it shows.
pub struct WindowManager {
    windows: LabelTable<String>,
}

impl View for WindowManager {
    type V = Map<Seq<char>, Seq<char>>;

    closed spec fn view(&self) -> Map<Seq<char>, Seq<char>> {
        self.windows@.map_values(|v: String| v@)
    }
}

impl Default for WindowManager {
    fn default() -> (r: Self)
        ensures
            r.wf(),
            r@ == Map::<Seq<char>, Seq<char>>::empty(),
    {
        Self::new()
    }
}

impl WindowManager {
    pub closed spec fn wf(&self) -> bool {
        self.windows.wf()
    }

    pub fn new() -> (r: Self)
        ensures
            r.wf(),
            r@ == Map::<Seq<char>, Seq<char>>::empty(),
    {
        let r = WindowManager { windows: LabelTable::new() };
        proof {
            assert(r@ =~= Map::<Seq<char>, Seq<char>>::empty());
        }
        r
    }

    /// A fresh window label: `vault_` followed by a random UUID.
    pub fn new_window_label() -> (r: String)
        ensures
            r@.len() == 42,
            r@.subrange(0, 6) == "vault_"@,
            is_hyphenated_uuid(r@.subrange(6, 42)),
    {
        let id = random_uuid();
        let mut label = String::from_str("vault_");
        label.append(id.as_str());
        proof {
            reveal_strlit("vault_");
            assert(label@.subrange(0, 6) =~= "vault_"@);
            assert(label@.subrange(6, 42) =~= id@);
        }
        label
    }

    /// Records that window `window_label` shows workspace `vault_path`.
    pub fn track_window(&mut self, window_label: String, vault_path: String)
        requires
            old(self).wf(),
        ensures
            final(self).wf(),
            final(self)@ == old(self)@.insert(window_label@, vault_path@),
    {
        let ghost k = window_label@;
        let ghost v = vault_path@;
        self.windows.insert(window_label, vault_path);
        proof {
            assert(self@ =~= old(self)@.insert(k, v));
        }
    }

    /// The workspace shown by `window_label`.
    pub fn get_vault_path(&self, window_label: &str) -> (r: Option<&String>)
        requires
            self.wf(),
        ensures
            match r {
                Some(p) => self@.contains_key(window_label@) && p@ == self@[window_label@],
                None => !self@.contains_key(window_label@),
            },
    {
        self.windows.get(window_label)
    }

    /// Stops tracking `window_label`; an unknown label changes nothing.
    pub fn remove_window(&mut self, window_label: &str)
        requires
            old(self).wf(),
        ensures
            final(self).wf(),
            final(self)@ == old(self)@.remove(window_label@),
    {
        self.windows.remove(window_label);
        proof {
            assert(self@ =~= old(self)@.remove(window_label@));
        }
    }

    /// The labels of all tracked windows, each once.
    pub fn get_active_windows(&self) -> (r: Vec<String>)
        requires
            self.wf(),
        ensures
            crate::table::texts(r@).no_duplicates(),
            crate::table::texts(r@).to_set() == self@.dom(),
    {
        let r = self.windows.keys();
        proof {
            assert(crate::table::texts(r@).to_set() =~= self@.dom()) by {
                assert forall|k: Seq<char>| crate::table::texts(r@).to_set().contains(k) <==> self@.dom().contains(k) by {
                    if crate::table::texts(r@).contains(k) {
                        let i = choose|i: int| 0 <= i < crate::table::texts(r@).len() && crate::table::texts(r@)[i] == k;
                        assert(self.windows@.contains_key(self.windows.key_seq()[i]));
                    }
                }
            }
        }
        r
    }

    /// The display name of the workspace at `vault_path`.
    pub fn extract_vault_name(vault_path: &str) -> (r: String)
        ensures
            r@ == vault_name(vault_path@),
    {
        match path_file_name(vault_path) {
            Some(n) => n,
            None => String::from_str("Vault"),
        }
    }

    /// The title of the window that shows the workspace at `vault_path`.
    pub fn window_title(vault_path: &str) -> (r: String)
        ensures
            r@ == "Tailor - "@ + vault_name(vault_path@),
    {
        let name = Self::extract_vault_name(vault_path);
        let mut title = String::from_str("Tailor - ");
        title.append(name.as_str());
        title
    }
}

} // verus!
