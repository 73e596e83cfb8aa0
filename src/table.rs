//! The table that maps each category name to the extensions it claims.
use vstd::prelude::*;
use vstd::string::StringExecFns;

verus! {

broadcast use vstd::std_specs::vec::vec_clone_deep_view_proof;

/// A named destination folder and the extensions (lower case, no dot) it claims.
pub struct Category {
    pub name: String,
    pub extensions: Vec<String>,
}

impl View for Category {
    type V = (Seq<char>, Seq<Seq<char>>);

    open spec fn view(&self) -> Self::V {
        (self.name@, self.extensions.deep_view())
    }
}

/// The categories in the order in which lookup tries them.
pub struct ClassificationTable {
    pub categories: Vec<Category>,
}

impl View for ClassificationTable {
    type V = Seq<(Seq<char>, Seq<Seq<char>>)>;

    open spec fn view(&self) -> Self::V {
        self.categories@.map_values(|c: Category| c@)
    }
}

/// Where a loaded table came from.
#[derive(PartialEq, Eq, Structural, Clone, Copy, Debug)]
pub enum TableSource {
    /// The configuration text was read and parsed.
    Config,
    /// No configuration text could be read; the built-in table is used.
    Unreadable,
    /// The configuration text was not a map of names to lists of strings;
    /// the built-in table is used.
    Malformed,
}

/// What serde_json makes of a configuration text read as an object whose
/// values are arrays of strings, with its keys in ascending order; `None` when
/// the text is not such an object.
pub uninterp spec fn json_table(text: Seq<char>) -> Option<Seq<(Seq<char>, Seq<Seq<char>>)>>;

/// Relies on `serde_json::from_str` into a `BTreeMap<String, Vec<String>>`:
/// the outcome depends on the text alone, and the map hands its entries out
/// in key order.
#[verifier::external_body]
fn parse_json_table(text: &str) -> (r: Option<Vec<(String, Vec<String>)>>)
    ensures
        r.deep_view() == json_table(text@),
{
    match serde_json::from_str::<std::collections::BTreeMap<String, Vec<String>>>(text) {
        Ok(m) => Some(m.into_iter().collect()),
        Err(_) => None,
    }
}

/// The built-in table, used when no usable configuration is found.
pub open spec fn default_table() -> Seq<(Seq<char>, Seq<Seq<char>>)> {
    seq![
        ("Documents"@, seq!["txt"@, "pdf"@, "docx"@, "xlsx"@, "odt"@]),
        ("Archives"@, seq!["zip"@, "rar"@, "7z"@]),
        ("Executables"@, seq!["exe"@, "msi"@]),
        ("Images"@, seq!["png"@, "jpg"@, "jpeg"@, "gif"@, "bmp"@, "svg"@, "webp"@]),
        ("Videos"@, seq!["mp4"@, "mov"@, "avi"@, "webm"@, "mkv"@, "wmv"@]),
        ("Audio"@, seq!["mp3"@, "wav"@, "ogg"@, "flac"@, "m4a"@]),
    ]
}

/// The table that a configuration text gives: the parsed table where the
/// text parses, the built-in one where it is missing or malformed.
pub open spec fn configured_table(text: Option<Seq<char>>) -> Seq<(Seq<char>, Seq<Seq<char>>)> {
    match text {
        None => default_table(),
        Some(t) => match json_table(t) {
            Some(v) => v,
            None => default_table(),
        },
    }
}

fn strings_of(items: &Vec<&str>) -> (r: Vec<String>)
    ensures
        r.deep_view() == items@.map_values(|s: &str| s@),
{
    let mut r: Vec<String> = Vec::new();
    let mut i: usize = 0;
    while i < items.len()
        invariant
            i <= items@.len(),
            r@.len() == i,
            forall|j: int| 0 <= j < i ==> r@[j]@ == items@[j]@,
        decreases items@.len() - i,
    {
        r.push(String::from_str(items[i]));
        i = i + 1;
    }
    assert(r.deep_view() =~= items@.map_values(|s: &str| s@));
    r
}

fn category_of_strs(name: &str, items: Vec<&str>) -> (r: Category)
    ensures
        r@ == (name@, items@.map_values(|s: &str| s@)),
{
    Category { name: String::from_str(name), extensions: strings_of(&items) }
}

impl ClassificationTable {
    /// The built-in table: Documents, Archives, Executables, Images, Videos
    /// and Audio, in that order.
    pub fn builtin() -> (r: ClassificationTable)
        ensures
            r@ == default_table(),
    {
        let mut categories: Vec<Category> = Vec::new();
        let c = category_of_strs("Documents", vec!["txt", "pdf", "docx", "xlsx", "odt"]);
        assert(c@.1 =~= default_table()[0].1);
        categories.push(c);
        let c = category_of_strs("Archives", vec!["zip", "rar", "7z"]);
        assert(c@.1 =~= default_table()[1].1);
        categories.push(c);
        let c = category_of_strs("Executables", vec!["exe", "msi"]);
        assert(c@.1 =~= default_table()[2].1);
        categories.push(c);
        let c = category_of_strs("Images", vec!["png", "jpg", "jpeg", "gif", "bmp", "svg", "webp"]);
        assert(c@.1 =~= default_table()[3].1);
        categories.push(c);
        let c = category_of_strs("Videos", vec!["mp4", "mov", "avi", "webm", "mkv", "wmv"]);
        assert(c@.1 =~= default_table()[4].1);
        categories.push(c);
        let c = category_of_strs("Audio", vec!["mp3", "wav", "ogg", "flac", "m4a"]);
        assert(c@.1 =~= default_table()[5].1);
        categories.push(c);
        let r = ClassificationTable { categories };
        assert(r@ =~= default_table());
        r
    }
}

/// The category that claims `ext`: the first of `t`, from index `i` on, whose
/// extensions hold it, or "Other" where none does.
pub open spec fn category_from(t: Seq<(Seq<char>, Seq<Seq<char>>)>, ext: Seq<char>, i: int) -> Seq<char>
    decreases t.len() - i,
{
    if i < 0 || i >= t.len() {
        "Other"@
    } else if t[i].1.contains(ext) {
        t[i].0
    } else {
        category_from(t, ext, i + 1)
    }
}

/// The category that claims `ext` in table `t`: the first that lists it, or
/// the fallback "Other".
pub open spec fn category_of(t: Seq<(Seq<char>, Seq<Seq<char>>)>, ext: Seq<char>) -> Seq<char> {
    category_from(t, ext, 0)
}

/// Whether two different categories of `t` both claim `ext`, which makes
/// the later one never chosen for it.
pub open spec fn claimed_twice(t: Seq<(Seq<char>, Seq<Seq<char>>)>, ext: Seq<char>) -> bool {
    exists|i: int, j: int|
        0 <= i < j < t.len() && #[trigger] t[i].1.contains(ext) && #[trigger] t[j].1.contains(ext)
}

impl Category {
    /// Whether this category lists `ext` among its extensions.
    pub fn claims(&self, ext: &String) -> (r: bool)
        ensures
            r == self@.1.contains(ext@),
    {
        let mut j: usize = 0;
        while j < self.extensions.len()
            invariant
                j <= self.extensions@.len(),
                forall|k: int| 0 <= k < j ==> self.extensions@[k]@ != ext@,
            decreases self.extensions@.len() - j,
        {
            if self.extensions[j] == *ext {
                assert(self@.1[j as int] == ext@);
                return true;
            }
            j = j + 1;
        }
        assert forall|k: int| 0 <= k < self@.1.len() implies self@.1[k] != ext@ by {
            assert(self@.1[k] == self.extensions@[k]@);
        }
        false
    }
}

impl ClassificationTable {
    /// Builds the table from what the configuration parser produced: the
    /// parsed categories in their order, or the built-in table where there
    /// was nothing usable.
    pub fn from_parsed(parsed: Option<Vec<(String, Vec<String>)>>) -> (r: ClassificationTable)
        ensures
            r@ == match parsed.deep_view() {
                Some(v) => v,
                None => default_table(),
            },
    {
        match parsed {
            None => ClassificationTable::builtin(),
            Some(entries) => {
                let mut categories: Vec<Category> = Vec::new();
                let mut i: usize = 0;
                while i < entries.len()
                    invariant
                        i <= entries@.len(),
                        categories@.len() == i,
                        forall|k: int| 0 <= k < i ==> #[trigger] categories@[k]@ == entries@[k].deep_view(),
                    decreases entries@.len() - i,
                {
                    let name = entries[i].0.clone();
                    let extensions = entries[i].1.clone();
                    assert(extensions.deep_view() =~= entries@[i as int].1.deep_view());
                    categories.push(Category { name, extensions });
                    i = i + 1;
                }
                let r = ClassificationTable { categories };
                assert(r@ =~= entries.deep_view());
                r
            },
        }
    }

    /// Loads the table from the configuration text, where one could be read.
    /// A missing or malformed text gives the built-in table; the second part
    /// of the result says which of the three happened.
    pub fn load(text: Option<&str>) -> (r: (ClassificationTable, TableSource))
        ensures
            r.0@ == configured_table(text.deep_view()),
            r.1 == match text {
                None => TableSource::Unreadable,
                Some(t) => if json_table(t@) is Some {
                    TableSource::Config
                } else {
                    TableSource::Malformed
                },
            },
            text matches Some(t) && json_table(t@) is None ==> r.0@ == default_table(),
    {
        match text {
            None => (ClassificationTable::builtin(), TableSource::Unreadable),
            Some(t) => {
                let parsed = parse_json_table(t);
                let source = if parsed.is_some() {
                    TableSource::Config
                } else {
                    TableSource::Malformed
                };
                (ClassificationTable::from_parsed(parsed), source)
            },
        }
    }

    /// The name of the category that claims `ext`: the first category, in the
    /// table's order, that lists it, or "Other" where none does.
    pub fn category_for(&self, ext: &String) -> (r: String)
        ensures
            r@ == category_of(self@, ext@),
    {
        let mut i: usize = 0;
        while i < self.categories.len()
            invariant
                i <= self@.len(),
                category_from(self@, ext@, i as int) == category_of(self@, ext@),
            decreases self@.len() - i,
        {
            if self.categories[i].claims(ext) {
                return self.categories[i].name.clone();
            }
            i = i + 1;
        }
        String::from_str("Other")
    }

    /// An extension that two categories both claim, where there is one. Such
    /// a table is ambiguous: lookup always picks the first of them.
    pub fn shared_extension(&self) -> (r: Option<String>)
        ensures
            r matches Some(e) ==> claimed_twice(self@, e@),
            r is None ==> forall|ext: Seq<char>| !claimed_twice(self@, ext),
    {
        let n = self.categories.len();
        let mut i: usize = 0;
        while i < n
            invariant
                n == self@.len(),
                i <= n,
                forall|a: int, b: int, ext: Seq<char>|
                    0 <= a < i && a < b < n && #[trigger] self@[a].1.contains(ext) ==> !#[trigger] self@[b].1.contains(ext),
            decreases n - i,
        {
            let exts = &self.categories[i].extensions;
            let mut k: usize = 0;
            while k < exts.len()
                invariant
                    n == self@.len(),
                    i < n,
                    exts == self.categories@[i as int].extensions,
                    k <= exts@.len(),
                    forall|a: int, b: int, ext: Seq<char>|
                        0 <= a < i && a < b < n && #[trigger] self@[a].1.contains(ext) ==> !#[trigger] self@[b].1.contains(ext),
                    forall|c: int, b: int| 0 <= c < k && i < b < n ==> !#[trigger] self@[b].1.contains(#[trigger] self@[i as int].1[c]),
                decreases exts@.len() - k,
            {
                let mut j: usize = i + 1;
                while j < n
                    invariant
                        n == self@.len(),
                        i < j <= n,
                        exts == self.categories@[i as int].extensions,
                        k < exts@.len(),
                        forall|b: int| i < b < j ==> !#[trigger] self@[b].1.contains(self@[i as int].1[k as int]),
                    decreases n - j,
                {
                    if self.categories[j].claims(&exts[k]) {
                        assert(self@[i as int].1.contains(exts@[k as int]@)) by {
                            assert(self@[i as int].1[k as int] == exts@[k as int]@);
                        }
                        let e = exts[k].clone();
                        assert(self@[i as int].1.contains(e@) && self@[j as int].1.contains(e@));
                        return Some(e);
                    }
                    j = j + 1;
                }
                k = k + 1;
            }
            assert forall|a: int, b: int, ext: Seq<char>|
                0 <= a < i + 1 && a < b < n && #[trigger] self@[a].1.contains(ext) implies !#[trigger] self@[b].1.contains(ext) by {
                if a == i {
                    let c = choose|c: int| 0 <= c < self@[a].1.len() && self@[a].1[c] == ext;
                    assert(!self@[b].1.contains(self@[i as int].1[c]));
                }
            }
            i = i + 1;
        }
        None
    }
}

} // verus!
