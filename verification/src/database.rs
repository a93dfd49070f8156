//! The headphone database: the `ParametricEQ.txt` files of an AutoEQ results
//! tree, one entry per headphone model and measurement source.

use vstd::prelude::*;
use vstd::string::*;
use crate::order::{chars_lt, lex_lt, lemma_lex_total, lemma_lex_transitive};
use crate::text::{
    ascii_lower, chars_eq, chars_of, contains_chars, contains_seq, is_ascii_text, lowercase, to_lowercase,
};

verus! {

/// One headphone profile of the database.
#[derive(Debug, Clone)]
pub struct HeadphoneEntry {
    /// The headphone model: the name of the directory that holds the file.
    pub name: String,
    /// The measurement source, e.g. "oratory1990": the directory above that.
    pub source: String,
    /// The file's path below the database root, with `/` between components.
    pub file_path: String,
}

/// The value a `HeadphoneEntry` stands for.
pub struct EntryModel {
    pub name: Seq<char>,
    pub source: Seq<char>,
    pub file_path: Seq<char>,
}

impl View for HeadphoneEntry {
    type V = EntryModel;

    open spec fn view(&self) -> EntryModel {
        EntryModel { name: self.name@, source: self.source@, file_path: self.file_path@ }
    }
}

/// A file that the walk of the database directory met, as `std::path::Path`
/// describes it.
pub struct WalkedFile {
    /// `path.file_name()`, when the path has one.
    pub file_name: Option<String>,
    /// Whether `path.parent()` exists.
    pub has_parent: bool,
    /// The parent's `file_name()`, when it has one.
    pub parent_name: Option<String>,
    /// Whether the parent has a parent.
    pub has_grandparent: bool,
    /// The grandparent's `file_name()`, when it has one.
    pub grandparent_name: Option<String>,
    /// `path.strip_prefix(base_path)` as text, when the path lies below the base.
    pub relative_path: Option<String>,
}

/// The value a `WalkedFile` stands for.
pub struct WalkedFileModel {
    pub file_name: Option<Seq<char>>,
    pub has_parent: bool,
    pub parent_name: Option<Seq<char>>,
    pub has_grandparent: bool,
    pub grandparent_name: Option<Seq<char>>,
    pub relative_path: Option<Seq<char>>,
}

/// The text an optional `String` holds.
pub open spec fn opt_text(o: Option<String>) -> Option<Seq<char>> {
    match o {
        Some(s) => Some(s@),
        None => None,
    }
}

impl View for WalkedFile {
    type V = WalkedFileModel;

    open spec fn view(&self) -> WalkedFileModel {
        WalkedFileModel {
            file_name: opt_text(self.file_name),
            has_parent: self.has_parent,
            parent_name: opt_text(self.parent_name),
            has_grandparent: self.has_grandparent,
            grandparent_name: opt_text(self.grandparent_name),
            relative_path: opt_text(self.relative_path),
        }
    }
}

/// `s` with every `\` replaced by `/`.
pub open spec fn forward_slashes(s: Seq<char>) -> Seq<char> {
    s.map_values(|ch: char| if ch == '\\' { '/' } else { ch })
}

/// The text of an optional name, empty when there is none.
pub open spec fn name_or_empty(o: Option<Seq<char>>) -> Seq<char> {
    match o {
        Some(s) => s,
        None => Seq::empty(),
    }
}

/// The entry that a walked file makes: only a `ParametricEQ.txt` with a parent
/// and a grandparent directory, below the database root, makes one.
pub open spec fn entry_of_file(f: WalkedFileModel) -> Option<EntryModel> {
    if f.file_name == Some("ParametricEQ.txt"@) && f.has_parent && f.has_grandparent
        && f.relative_path is Some {
        Some(
            EntryModel {
                name: name_or_empty(f.parent_name),
                source: name_or_empty(f.grandparent_name),
                file_path: forward_slashes(f.relative_path->0),
            },
        )
    } else {
        None
    }
}

/// The headphone profiles found below a directory.
pub struct HeadphoneDatabase {
    pub entries: Vec<HeadphoneEntry>,
}

impl View for HeadphoneDatabase {
    type V = Seq<EntryModel>;

    open spec fn view(&self) -> Seq<EntryModel> {
        self.entries@.map_values(|e: HeadphoneEntry| e@)
    }
}

/// An entry matches a query when its lower-cased name contains the lower-cased query.
pub open spec fn matches_query(e: EntryModel, query: Seq<char>) -> bool {
    contains_seq(lowercase(e.name), lowercase(query))
}

/// An entry matches a query in ASCII when its name with lowered ASCII letters
/// contains the query with lowered ASCII letters.
pub open spec fn matches_query_ascii(e: EntryModel, query: Seq<char>) -> bool {
    contains_seq(ascii_lower(e.name), ascii_lower(query))
}

/// Every entry's name is ASCII text.
pub open spec fn all_names_ascii(db: Seq<EntryModel>) -> bool {
    forall|k: int| 0 <= k < db.len() ==> is_ascii_text(#[trigger] db[k].name)
}

fn copy_text(s: &String) -> (r: String)
    ensures
        r@ == s@,
{
    s.clone()
}

fn text_or_empty(o: &Option<String>) -> (r: String)
    ensures
        r@ == name_or_empty(opt_text(*o)),
{
    match o {
        Some(s) => copy_text(s),
        None => String::new(),
    }
}

/// `s` with every `\` replaced by `/`.
fn with_forward_slashes(s: &String) -> (r: String)
    ensures
        r@ == forward_slashes(s@),
{
    let text = s.as_str();
    let c = chars_of(text);
    let mut r = String::new();
    let mut i: usize = 0;
    proof {
        reveal_strlit("/");
    }
    while i < c.len()
        invariant
            i <= c.len(),
            c@ == s@,
            text@ == s@,
            "/"@ == seq!['/'],
            r@ == forward_slashes(c@.take(i as int)),
        decreases c.len() - i,
    {
        let ch = c[i];
        if ch == '\\' {
            r.append("/");
        } else {
            r.append(text.substring_char(i, i + 1));
        }
        assert(c@.subrange(i as int, i + 1) =~= seq![ch]);
        assert(forward_slashes(c@.take(i + 1)) =~= forward_slashes(c@.take(i as int)).push(
            if ch == '\\' { '/' } else { ch },
        ));
        i = i + 1;
    }
    assert(c@.take(i as int) =~= c@);
    r
}

/// The texts of `s` are in strictly increasing order.
pub open spec fn strictly_sorted(s: Seq<Seq<char>>) -> bool {
    forall|i: int, j: int| 0 <= i < j < s.len() ==> lex_lt(#[trigger] s[i], #[trigger] s[j])
}

/// The names of the entries, in database order.
pub open spec fn entry_names(db: Seq<EntryModel>) -> Seq<Seq<char>> {
    db.map_values(|e: EntryModel| e.name)
}

proof fn lemma_insert_contains(s: Seq<Seq<char>>, p: int, v: Seq<char>, x: Seq<char>)
    requires
        0 <= p <= s.len(),
    ensures
        s.insert(p, v).contains(x) <==> (s.contains(x) || x == v),
{
    let t = s.insert(p, v);
    if s.contains(x) {
        let k = choose|k: int| 0 <= k < s.len() && #[trigger] s[k] == x;
        if k < p {
            assert(t[k] == x);
        } else {
            assert(t[k + 1] == x);
        }
    }
    if x == v {
        assert(t[p] == x);
    }
    if t.contains(x) {
        let k = choose|k: int| 0 <= k < t.len() && #[trigger] t[k] == x;
        if k < p {
            assert(s[k] == x);
        } else if k > p {
            assert(s[k - 1] == x);
        }
    }
}

/// Two queries that lower-case alike find the same entries: the search
/// ignores the case of the query.
pub proof fn law_search_ignores_case(entries: Seq<EntryModel>, q1: Seq<char>, q2: Seq<char>)
    requires
        lowercase(q1) == lowercase(q2),
    ensures
        entries.filter(|e: EntryModel| matches_query(e, q1)) == entries.filter(
            |e: EntryModel| matches_query(e, q2),
        ),
{
    assert((|e: EntryModel| matches_query(e, q1)) =~= (|e: EntryModel| matches_query(e, q2)));
}

/// Two entries whose names lower-case alike are found by the same queries:
/// the search ignores the case of the names.
pub proof fn law_search_ignores_name_case(a: EntryModel, b: EntryModel, q: Seq<char>)
    requires
        lowercase(a.name) == lowercase(b.name),
    ensures
        matches_query(a, q) == matches_query(b, q),
{
}

/// The same on ASCII text: two queries that agree once their letters `A`..`Z`
/// are lowered find the same entries among entries with ASCII names.
pub proof fn law_search_ascii_ignores_case(entries: Seq<EntryModel>, q1: Seq<char>, q2: Seq<char>)
    requires
        ascii_lower(q1) == ascii_lower(q2),
    ensures
        entries.filter(|e: EntryModel| matches_query_ascii(e, q1)) == entries.filter(
            |e: EntryModel| matches_query_ascii(e, q2),
        ),
{
    assert((|e: EntryModel| matches_query_ascii(e, q1)) =~= (|e: EntryModel| matches_query_ascii(e, q2)));
}

/// The empty query matches every entry.
pub proof fn law_empty_query_matches_all(e: EntryModel)
    ensures
        matches_query_ascii(e, Seq::empty()),
{
    let n = ascii_lower(e.name);
    assert(ascii_lower(Seq::<char>::empty()) =~= Seq::<char>::empty());
    assert(n.subrange(0int, 0int + ascii_lower(Seq::<char>::empty()).len()) =~= ascii_lower(
        Seq::<char>::empty(),
    ));
}

/// `needle` occurs in `hay` starting at position `i`: every character of it,
/// the last one included, equals the character of `hay` it lies over.
pub open spec fn occurs_at(hay: Seq<char>, needle: Seq<char>, i: int) -> bool {
    &&& 0 <= i
    &&& i + needle.len() <= hay.len()
    &&& forall|k: int| 0 <= k < needle.len() ==> #[trigger] hay[i + k] == needle[k]
}

/// An entry matches a query exactly when the whole lower-cased query occurs,
/// character for character and its last character included, at some place in
/// the entry's lower-cased name; likewise for the ASCII lowering.
pub proof fn law_search_matches_whole_query(e: EntryModel, q: Seq<char>)
    ensures
        matches_query(e, q) <==> exists|i: int| #[trigger]
            occurs_at(lowercase(e.name), lowercase(q), i),
        matches_query_ascii(e, q) <==> exists|i: int| #[trigger]
            occurs_at(ascii_lower(e.name), ascii_lower(q), i),
{
    lemma_contains_seq_whole(lowercase(e.name), lowercase(q));
    lemma_contains_seq_whole(ascii_lower(e.name), ascii_lower(q));
}

proof fn lemma_contains_seq_whole(hay: Seq<char>, needle: Seq<char>)
    ensures
        contains_seq(hay, needle) <==> exists|i: int| #[trigger] occurs_at(hay, needle, i),
{
    if contains_seq(hay, needle) {
        let i = choose|i: int|
            0 <= i <= hay.len() - needle.len() && #[trigger] hay.subrange(i, i + needle.len()) == needle;
        assert forall|k: int| 0 <= k < needle.len() implies #[trigger] hay[i + k] == needle[k] by {
            assert(hay.subrange(i, i + needle.len())[k] == hay[i + k]);
        }
        assert(occurs_at(hay, needle, i));
    }
    if exists|i: int| #[trigger] occurs_at(hay, needle, i) {
        let i = choose|i: int| #[trigger] occurs_at(hay, needle, i);
        assert(hay.subrange(i, i + needle.len()) =~= needle) by {
            assert forall|k: int| 0 <= k < needle.len() implies hay.subrange(i, i + needle.len())[k]
                == needle[k] by {
                assert(hay[i + k] == needle[k]);
            }
        }
    }
}

pub(crate) proof fn lemma_filter_map_has<A, B>(s: Seq<A>, f: spec_fn(A) -> Option<B>, i: int)
    requires
        0 <= i < s.len(),
        f(s[i]) is Some,
    ensures
        s.filter_map(f).contains(f(s[i])->0),
    decreases s.len(),
{
    reveal_with_fuel(Seq::filter_map, 1);
    let r = s.filter_map(f);
    if i == s.len() - 1 {
        assert(r[r.len() - 1] == f(s[i])->0);
    } else {
        lemma_filter_map_has(s.drop_last(), f, i);
        let r0 = s.drop_last().filter_map(f);
        let k = choose|k: int| 0 <= k < r0.len() && r0[k] == f(s[i])->0;
        assert(r[k] == r0[k]);
    }
}

/// Every entry of the database of a walk comes from a `ParametricEQ.txt` file
/// of the walk that has a parent and a grandparent directory and lies below
/// the root: its name is the parent's name, its source the grandparent's name,
/// and its path the file's relative path, character for character, with each
/// `\` turned into `/`. The result is that file's position in the walk.
pub proof fn law_entry_comes_from_profile_file(files: Seq<WalkedFileModel>, db: Seq<EntryModel>, k: int) -> (i: int)
    requires
        db == files.filter_map(|f: WalkedFileModel| entry_of_file(f)),
        0 <= k < db.len(),
    ensures
        0 <= i < files.len(),
        is_profile_file(files[i]),
        is_entry_of(db[k], files[i]),
{
    let sel = |f: WalkedFileModel| entry_of_file(f);
    assert(db == files.filter_map(sel));
    assert(db.contains(db[k]));
    files.lemma_filter_map_contains(sel, db[k]);
    let t = choose|t: WalkedFileModel| #[trigger] files.contains(t) && sel(t) == Some(db[k]);
    let i = choose|i: int| 0 <= i < files.len() && files[i] == t;
    lemma_entry_of_profile_file(files[i]);
    i
}

/// Every `ParametricEQ.txt` file of a walk that has a parent and a grandparent
/// directory and lies below the root has its entry in the database of the
/// walk. The result is that entry's position.
pub proof fn law_profile_file_has_entry(files: Seq<WalkedFileModel>, db: Seq<EntryModel>, i: int) -> (k: int)
    requires
        db == files.filter_map(|f: WalkedFileModel| entry_of_file(f)),
        0 <= i < files.len(),
        is_profile_file(files[i]),
    ensures
        0 <= k < db.len(),
        is_entry_of(db[k], files[i]),
{
    let sel = |f: WalkedFileModel| entry_of_file(f);
    assert(db == files.filter_map(sel));
    lemma_entry_of_profile_file(files[i]);
    lemma_filter_map_has(files, sel, i);
    let k = choose|k: int| 0 <= k < db.len() && db[k] == sel(files[i])->0;
    k
}

/// The database of a walk has as many entries as the walk has profile files:
/// one each, no file twice, none left out.
pub proof fn law_one_entry_per_profile_file(files: Seq<WalkedFileModel>)
    ensures
        files.filter_map(|f: WalkedFileModel| entry_of_file(f)).len() == files.filter(
            |f: WalkedFileModel| is_profile_file(f),
        ).len(),
    decreases files.len(),
{
    reveal_with_fuel(Seq::filter_map, 1);
    reveal_with_fuel(Seq::filter, 1);
    if files.len() > 0 {
        law_one_entry_per_profile_file(files.drop_last());
        lemma_entry_of_profile_file(files.last());
    }
}

/// A walked file that makes an entry: a `ParametricEQ.txt` with a parent and a
/// grandparent directory, below the database root.
pub open spec fn is_profile_file(f: WalkedFileModel) -> bool {
    &&& f.file_name == Some("ParametricEQ.txt"@)
    &&& f.has_parent
    &&& f.has_grandparent
    &&& f.relative_path is Some
}

/// `e` is the entry of the profile file `f`: named after its parent, sourced
/// from its grandparent, at its relative path with `/` for every `\`.
pub open spec fn is_entry_of(e: EntryModel, f: WalkedFileModel) -> bool {
    &&& e.name == (match f.parent_name {
        Some(n) => n,
        None => Seq::empty(),
    })
    &&& e.source == (match f.grandparent_name {
        Some(n) => n,
        None => Seq::empty(),
    })
    &&& e.file_path.len() == f.relative_path->0.len()
    &&& forall|j: int|
        0 <= j < e.file_path.len() ==> #[trigger] e.file_path[j] == (if f.relative_path->0[j] == '\\' {
            '/'
        } else {
            f.relative_path->0[j]
        })
}

proof fn lemma_entry_of_profile_file(f: WalkedFileModel)
    ensures
        entry_of_file(f) is Some <==> is_profile_file(f),
        entry_of_file(f) matches Some(e) ==> is_entry_of(e, f),
{
}

impl HeadphoneDatabase {
    /// The database of the files that a walk of the results directory met, in
    /// the walk's order.
    pub fn from_directory(files: &Vec<WalkedFile>) -> (db: Self)
        ensures
            db@ == files@.map_values(|f: WalkedFile| f@).filter_map(|f: WalkedFileModel| entry_of_file(f)),
    {
        let mut entries: Vec<HeadphoneEntry> = Vec::new();
        let ghost fm = files@.map_values(|f: WalkedFile| f@);
        let ghost sel = |f: WalkedFileModel| entry_of_file(f);
        let mut i: usize = 0;
        while i < files.len()
            invariant
                i <= files.len(),
                fm == files@.map_values(|f: WalkedFile| f@),
                sel == (|f: WalkedFileModel| entry_of_file(f)),
                entries@.map_values(|e: HeadphoneEntry| e@) == fm.take(i as int).filter_map(sel),
            decreases files.len() - i,
        {
            let f = &files[i];
            proof {
                fm.lemma_filter_map_take_succ(sel, i as int);
            }
            assert(fm[i as int] == f@);
            let ghost old_entries = entries@;
            let is_eq_file = match &f.file_name {
                Some(n) => chars_eq(&chars_of(n.as_str()), &chars_of("ParametricEQ.txt")),
                None => false,
            };
            assert(is_eq_file == (f@.file_name == Some("ParametricEQ.txt"@)));
            if is_eq_file && f.has_parent && f.has_grandparent {
                match &f.relative_path {
                    Some(rel) => {
                        let e = HeadphoneEntry {
                            name: text_or_empty(&f.parent_name),
                            source: text_or_empty(&f.grandparent_name),
                            file_path: with_forward_slashes(rel),
                        };
                        entries.push(e);
                        assert(entries@.map_values(|e: HeadphoneEntry| e@) =~= old_entries.map_values(
                            |e: HeadphoneEntry| e@,
                        ) + seq![e@]);
                    },
                    None => {},
                }
            }
            i = i + 1;
        }
        assert(fm.take(i as int) =~= fm);
        HeadphoneDatabase { entries }
    }

    /// The entries whose name contains `query`, ignoring case, in database order.
    /// The empty query finds every entry; on ASCII text, ignoring case means
    /// lowering the letters `A`..`Z`.
    pub fn search(&self, query: &str) -> (r: Vec<&HeadphoneEntry>)
        ensures
            r@.map_values(|e: &HeadphoneEntry| e@) == self@.filter(
                |e: EntryModel| matches_query(e, query@),
            ),
            query@.len() == 0 ==> r@.map_values(|e: &HeadphoneEntry| e@) == self@,
            is_ascii_text(query@) && all_names_ascii(self@) ==> r@.map_values(
                |e: &HeadphoneEntry| e@,
            ) == self@.filter(|e: EntryModel| matches_query_ascii(e, query@)),
    {
        let q = to_lowercase(query);
        let qc = chars_of(q.as_str());
        let ghost pred = |e: EntryModel| matches_query(e, query@);
        let ghost pred_ascii = |e: EntryModel| matches_query_ascii(e, query@);
        let ghost all = self@;
        let ghost ascii = is_ascii_text(query@) && all_names_ascii(self@);
        proof {
            if query@.len() == 0 {
                assert(ascii_lower(query@) =~= Seq::<char>::empty());
                assert(all.take(0) =~= Seq::<EntryModel>::empty());
            }
        }
        let mut r: Vec<&HeadphoneEntry> = Vec::new();
        let mut i: usize = 0;
        while i < self.entries.len()
            invariant
                i <= self.entries.len(),
                all == self@,
                qc@ == lowercase(query@),
                is_ascii_text(query@) ==> qc@ == ascii_lower(query@),
                query@.len() == 0 ==> qc@.len() == 0,
                ascii == (is_ascii_text(query@) && all_names_ascii(self@)),
                pred == (|e: EntryModel| matches_query(e, query@)),
                pred_ascii == (|e: EntryModel| matches_query_ascii(e, query@)),
                r@.map_values(|e: &HeadphoneEntry| e@) == all.take(i as int).filter(pred),
                ascii ==> r@.map_values(|e: &HeadphoneEntry| e@) == all.take(i as int).filter(pred_ascii),
                query@.len() == 0 ==> r@.map_values(|e: &HeadphoneEntry| e@) == all.take(i as int),
            decreases self.entries.len() - i,
        {
            let e = &self.entries[i];
            let lc = chars_of(to_lowercase(e.name.as_str()).as_str());
            let hit = contains_chars(&lc, &qc);
            let ghost old_r = r@;
            proof {
                reveal_with_fuel(Seq::filter, 1);
                assert(all.take(i + 1).drop_last() =~= all.take(i as int));
                assert(all.take(i + 1).last() == e@);
                assert(all[i as int] == e@);
                if ascii {
                    assert(is_ascii_text(all[i as int].name));
                    assert(hit == pred_ascii(e@));
                }
                if query@.len() == 0 {
                    assert(lc@.subrange(0int, 0int + qc@.len()) =~= qc@);
                    assert(hit);
                }
            }
            if hit {
                r.push(e);
                assert(r@.map_values(|e: &HeadphoneEntry| e@) =~= old_r.map_values(
                    |e: &HeadphoneEntry| e@,
                ).push(e@));
            }
            i = i + 1;
        }
        assert(all.take(i as int) =~= all);
        r
    }

    /// The distinct headphone names, in increasing order.
    pub fn headphone_names(&self) -> (names: Vec<&str>)
        ensures
            strictly_sorted(names@.map_values(|n: &str| n@)),
            forall|x: Seq<char>|
                names@.map_values(|n: &str| n@).contains(x) <==> entry_names(self@).contains(x),
    {
        let ghost en = entry_names(self@);
        let mut names: Vec<&str> = Vec::new();
        let mut keys: Vec<Vec<char>> = Vec::new();
        let mut i: usize = 0;
        while i < self.entries.len()
            invariant
                i <= self.entries.len(),
                en == entry_names(self@),
                names@.map_values(|n: &str| n@) == keys@.map_values(|k: Vec<char>| k@),
                strictly_sorted(keys@.map_values(|k: Vec<char>| k@)),
                forall|x: Seq<char>|
                    keys@.map_values(|k: Vec<char>| k@).contains(x) <==> en.take(i as int).contains(x),
            decreases self.entries.len() - i,
        {
            let ghost kv = keys@.map_values(|k: Vec<char>| k@);
            let name = self.entries[i].name.as_str();
            let k = chars_of(name);
            assert(en[i as int] == k@);
            let mut p: usize = 0;
            while p < keys.len() && chars_lt(&keys[p], &k)
                invariant
                    p <= keys.len(),
                    kv == keys@.map_values(|k: Vec<char>| k@),
                    forall|q: int| 0 <= q < p ==> lex_lt(#[trigger] kv[q], k@),
                decreases keys.len() - p,
            {
                p = p + 1;
            }
            assert forall|x: Seq<char>| en.take(i + 1).contains(x) <==> (en.take(i as int).contains(x) || x == k@) by {
                if en.take(i + 1).contains(x) {
                    let q = choose|q: int| 0 <= q < i + 1 && #[trigger] en.take(i + 1)[q] == x;
                    if q < i {
                        assert(en.take(i as int)[q] == x);
                    }
                }
                if en.take(i as int).contains(x) {
                    let q = choose|q: int| 0 <= q < i && #[trigger] en.take(i as int)[q] == x;
                    assert(en.take(i + 1)[q] == x);
                }
                if x == k@ {
                    assert(en.take(i + 1)[i as int] == x);
                }
            }
            if p < keys.len() && chars_eq(&keys[p], &k) {
                assert(kv.contains(k@)) by {
                    assert(kv[p as int] == k@);
                }
                assert forall|x: Seq<char>| kv.contains(x) <==> en.take(i + 1).contains(x) by {
                    assert(en.take(i + 1).contains(x) <==> (en.take(i as int).contains(x) || x == k@));
                }
            } else {
                proof {
                    if p < keys.len() {
                        lemma_lex_total(kv[p as int], k@);
                        assert(lex_lt(k@, kv[p as int]));
                    }
                    assert forall|x: Seq<char>| kv.insert(p as int, k@).contains(x) <==> (kv.contains(x) || x == k@) by {
                        lemma_insert_contains(kv, p as int, k@, x);
                    }
                    let nk = kv.insert(p as int, k@);
                    assert forall|a: int, b: int| 0 <= a < b < nk.len() implies lex_lt(#[trigger] nk[a], #[trigger] nk[b]) by {
                        if b < p {
                        } else if b == p {
                        } else if a < p {
                            assert(nk[b] == kv[b - 1]);
                            if b - 1 > p {
                                assert(lex_lt(kv[p as int], kv[b - 1]));
                                lemma_lex_transitive(k@, kv[p as int], kv[b - 1]);
                            }
                            lemma_lex_transitive(kv[a], k@, kv[b - 1]);
                        } else if a == p {
                            assert(nk[b] == kv[b - 1]);
                            if b - 1 > p {
                                assert(lex_lt(kv[p as int], kv[b - 1]));
                                lemma_lex_transitive(k@, kv[p as int], kv[b - 1]);
                            }
                        } else {
                            assert(nk[a] == kv[a - 1]);
                            assert(nk[b] == kv[b - 1]);
                        }
                    }
                }
                let ghost old_names = names@;
                let ghost kk = k@;
                keys.insert(p, k);
                names.insert(p, name);
                assert(keys@.map_values(|k: Vec<char>| k@) =~= kv.insert(p as int, kk));
                assert(names@.map_values(|n: &str| n@) =~= old_names.map_values(|n: &str| n@).insert(p as int, name@));
                assert forall|x: Seq<char>| kv.insert(p as int, kk).contains(x) <==> en.take(i + 1).contains(x) by {
                    assert(en.take(i + 1).contains(x) <==> (en.take(i as int).contains(x) || x == kk));
                    lemma_insert_contains(kv, p as int, kk, x);
                }
            }
            i = i + 1;
        }
        assert(en.take(i as int) =~= en);
        names
    }

    /// Number of entries.
    pub fn len(&self) -> (n: usize)
        ensures
            n == self@.len(),
    {
        self.entries.len()
    }

    /// Whether the database holds no entry.
    pub fn is_empty(&self) -> (b: bool)
        ensures
            b == (self@.len() == 0),
    {
        self.entries.len() == 0
    }
}

} // verus!
