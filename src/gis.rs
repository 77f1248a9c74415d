use vstd::prelude::*;
use vstd::string::StrSliceExecFns;
use vstd::string::StringExecFns;

use crate::digest::{md5_hex, md5_hex_of};
use crate::text::{chars_of, join_words, range_contains, token_spans, tokens};

verus! {

/// An authorship identity: a name, an email address and a fingerprint of both.
#[derive(Debug)]
pub struct Identity {
    pub author: String,
    pub email: String,
    pub id: String,
}

/// A directory bound to the identity that should be active in it.
#[derive(Debug)]
pub struct Workspace {
    pub name: String,
    pub path: String,
    pub identity: String,
}

/// The stored registry: the identity in use, the workspaces and the identities.
#[derive(Debug)]
pub struct Data {
    pub current_identity: Option<String>,
    pub workspaces: Vec<Workspace>,
    pub identities: Vec<Identity>,
}

/// The registry together with the store's location and the working directory
/// that new workspaces are bound to.
#[derive(Debug)]
pub struct Gis {
    pub data: Data,
    pub config: String,
    pub pwd: String,
}

/// An identity as a value of the specification.
pub struct IdentityModel {
    pub author: Seq<char>,
    pub email: Seq<char>,
    pub id: Seq<char>,
}

/// A workspace as a value of the specification.
pub struct WorkspaceModel {
    pub name: Seq<char>,
    pub path: Seq<char>,
    pub identity: Seq<char>,
}

/// The registry as a value of the specification.
pub struct DataModel {
    pub current: Option<Seq<char>>,
    pub workspaces: Seq<WorkspaceModel>,
    pub identities: Seq<IdentityModel>,
}

impl View for Identity {
    type V = IdentityModel;

    open spec fn view(&self) -> IdentityModel {
        IdentityModel { author: self.author@, email: self.email@, id: self.id@ }
    }
}

impl View for Workspace {
    type V = WorkspaceModel;

    open spec fn view(&self) -> WorkspaceModel {
        WorkspaceModel { name: self.name@, path: self.path@, identity: self.identity@ }
    }
}

/// The characters of an optional string.
pub open spec fn opt_view(o: Option<String>) -> Option<Seq<char>> {
    match o {
        Some(s) => Some(s@),
        None => None,
    }
}

impl View for Data {
    type V = DataModel;

    open spec fn view(&self) -> DataModel {
        DataModel {
            current: opt_view(self.current_identity),
            workspaces: self.workspaces@.map_values(|w: Workspace| w@),
            identities: self.identities@.map_values(|i: Identity| i@),
        }
    }
}

/// What an operation on the registry came to.
#[derive(Clone, Copy, Debug, PartialEq, Eq, Structural)]
pub enum Outcome {
    Added,
    Swapped,
    MissingEmail,
    MissingAuthor,
    DuplicateIdentity,
    InvalidIndex,
    NoCurrentIdentity,
    EmptyName,
    ConfigFailed,
}

/// The registry with nothing in it.
pub open spec fn empty_model() -> DataModel {
    DataModel { current: None, workspaces: Seq::empty(), identities: Seq::empty() }
}

/// `s` without its element at `i`, whose place the last element takes.
pub open spec fn swap_removed<T>(s: Seq<T>, i: int) -> Seq<T> {
    s.update(i, s.last()).drop_last()
}

/// Whether the word `t` holds an `@`.
pub open spec fn has_at(t: Seq<char>) -> bool {
    t.contains('@')
}

/// The first of `ts` that holds an `@`.
pub open spec fn first_at(ts: Seq<Seq<char>>) -> Option<Seq<char>>
    decreases ts.len(),
{
    if ts.len() == 0 {
        None
    } else {
        match first_at(ts.drop_last()) {
            Some(e) => Some(e),
            None => if has_at(ts.last()) {
                Some(ts.last())
            } else {
                None
            },
        }
    }
}

/// Those of `ts` that hold no `@`, in order.
pub open spec fn plain_words(ts: Seq<Seq<char>>) -> Seq<Seq<char>>
    decreases ts.len(),
{
    if ts.len() == 0 {
        Seq::empty()
    } else {
        let w = plain_words(ts.drop_last());
        if has_at(ts.last()) {
            w
        } else {
            w.push(ts.last())
        }
    }
}

/// The string an identity's id is the digest of.
pub open spec fn canonical(author: Seq<char>, email: Seq<char>) -> Seq<char> {
    author + seq![' '] + email
}

/// The id derived from an author and an email.
pub open spec fn identity_id(author: Seq<char>, email: Seq<char>) -> Seq<char> {
    md5_hex(canonical(author, email))
}

/// The email address given in `text`: its first word with an `@`.
pub open spec fn email_of(text: Seq<char>) -> Seq<char> {
    match first_at(tokens(text)) {
        Some(e) => e,
        None => Seq::empty(),
    }
}

/// The author name given in `text`: its words without an `@`, joined by spaces.
pub open spec fn author_of(text: Seq<char>) -> Seq<char> {
    join_words(plain_words(tokens(text)))
}

/// The identity that `text` describes.
pub open spec fn identity_of(text: Seq<char>) -> IdentityModel {
    IdentityModel {
        author: author_of(text),
        email: email_of(text),
        id: identity_id(author_of(text), email_of(text)),
    }
}

/// What adding the identity described by `text` to `d` comes to.
pub open spec fn add_identity_outcome(d: DataModel, text: Seq<char>) -> Outcome {
    if !text.contains('@') {
        Outcome::MissingEmail
    } else if plain_words(tokens(text)).len() == 0 {
        Outcome::MissingAuthor
    } else if d.identities.contains(identity_of(text)) {
        Outcome::DuplicateIdentity
    } else {
        Outcome::Added
    }
}

/// The registry after adding the identity described by `text` to `d`.
pub open spec fn add_identity_data(d: DataModel, text: Seq<char>) -> DataModel {
    if add_identity_outcome(d, text) == Outcome::Added {
        let p = identity_of(text);
        DataModel {
            current: if d.current is None {
                Some(p.id)
            } else {
                d.current
            },
            identities: d.identities.push(p),
            ..d
        }
    } else {
        d
    }
}

/// Where some word holds an `@`, there is a first such word.
proof fn lemma_first_at_some(ts: Seq<Seq<char>>, j: int)
    requires
        0 <= j < ts.len(),
        has_at(ts[j]),
    ensures
        first_at(ts) is Some,
    decreases ts.len(),
{
    if j < ts.len() - 1 {
        lemma_first_at_some(ts.drop_last(), j);
    }
}

/// An `@` in the text lies in one of its words.
proof fn lemma_token_with_at(s: Seq<char>, k: int)
    requires
        0 <= k < s.len(),
        s[k] == '@',
    ensures
        exists|j: int| 0 <= j < tokens(s).len() && has_at(#[trigger] tokens(s)[j]),
    decreases s.len(),
{
    let t = tokens(s.drop_last());
    let c = s.last();
    if k == s.len() - 1 {
        if s.len() >= 2 && !crate::text::is_space(s[s.len() - 2]) {
            lemma_token_nonempty_tail(s.drop_last());
            let u = t.last().push(c);
            assert(u[u.len() - 1] == '@');
            assert(has_at(tokens(s)[t.len() - 1]));
        } else {
            assert(seq![c][0] == '@');
            assert(has_at(tokens(s)[t.len() as int]));
        }
    } else {
        assert(s.drop_last()[k] == '@');
        lemma_token_with_at(s.drop_last(), k);
        let j = choose|j: int| 0 <= j < t.len() && has_at(#[trigger] t[j]);
        let w = t[j];
        let wi = choose|i: int| 0 <= i < w.len() && w[i] == '@';
        if crate::text::is_space(c) {
            assert(has_at(tokens(s)[j]));
        } else if s.len() >= 2 && !crate::text::is_space(s[s.len() - 2]) {
            if j == t.len() - 1 {
                assert(t.last().push(c)[wi] == '@');
            }
            assert(has_at(tokens(s)[j]));
        } else {
            assert(has_at(tokens(s)[j]));
        }
    }
}

/// Text that ends in a non-space character has a word.
proof fn lemma_token_nonempty_tail(s: Seq<char>)
    requires
        s.len() > 0,
        !crate::text::is_space(s.last()),
    ensures
        tokens(s).len() > 0,
    decreases s.len(),
{
    if s.len() >= 2 && !crate::text::is_space(s[s.len() - 2]) {
        lemma_token_nonempty_tail(s.drop_last());
    }
}

/// The author and email that `value` gives, or why it gives none.
fn parse_identity(value: &str) -> (r: Result<(String, String), Outcome>)
    ensures
        match r {
            Ok((author, email)) => {
                &&& value@.contains('@')
                &&& plain_words(tokens(value@)).len() > 0
                &&& author@ == author_of(value@)
                &&& email@ == email_of(value@)
            },
            Err(o) => {
                ||| o == Outcome::MissingEmail && !value@.contains('@')
                ||| o == Outcome::MissingAuthor && value@.contains('@') && plain_words(
                    tokens(value@),
                ).len() == 0
            },
        },
{
    let cs = chars_of(value);
    let n = cs.len();
    if !range_contains(&cs, 0, n, '@') {
        assert(cs@.subrange(0, n as int) =~= value@);
        return Err(Outcome::MissingEmail);
    }
    assert(cs@.subrange(0, n as int) =~= value@);
    let spans = token_spans(&cs);
    let ghost ts = tokens(value@);
    let mut email: Option<String> = None;
    let mut author = String::new();
    let mut words: usize = 0;
    let mut k: usize = 0;
    while k < spans.len()
        invariant
            cs@ == value@,
            ts == tokens(cs@),
            spans@.len() == ts.len(),
            forall|j: int|
                #![trigger spans@[j]]
                0 <= j < spans@.len() ==> {
                    &&& spans@[j].0 < spans@[j].1 <= cs@.len()
                    &&& cs@.subrange(spans@[j].0 as int, spans@[j].1 as int) == ts[j]
                },
            k <= spans@.len(),
            opt_view(email) == first_at(ts.take(k as int)),
            author@ == join_words(plain_words(ts.take(k as int))),
            words as nat == plain_words(ts.take(k as int)).len(),
            words <= k,
        decreases spans@.len() - k,
    {
        let (from, to) = spans[k];
        let ghost prev = ts.take(k as int);
        let ghost next = ts.take(k + 1);
        assert(next.drop_last() =~= prev);
        assert(next.last() == ts[k as int]);
        let word = value.substring_char(from, to);
        assert(word@ == ts[k as int]);
        if range_contains(&cs, from, to, '@') {
            if email.is_none() {
                email = Some(word.to_owned());
            }
        } else {
            let ghost before = author@;
            if words > 0 {
                author.append(" ");
                proof {
                    reveal_strlit(" ");
                }
            }
            author.append(word);
            words = words + 1;
            proof {
                let pw = plain_words(prev);
                assert(plain_words(next) == pw.push(ts[k as int]));
                assert(pw.push(ts[k as int]).drop_last() =~= pw);
                if pw.len() > 0 {
                    assert(author@ =~= before + seq![' '] + ts[k as int]);
                } else {
                    assert(author@ =~= ts[k as int]);
                }
            }
        }
        k = k + 1;
    }
    assert(ts.take(spans@.len() as int) =~= ts);
    let ghost at = choose|i: int| 0 <= i < value@.len() && value@[i] == '@';
    proof {
        lemma_token_with_at(value@, at);
        let j = choose|j: int| 0 <= j < ts.len() && has_at(#[trigger] ts[j]);
        lemma_first_at_some(ts, j);
    }
    if words == 0 {
        return Err(Outcome::MissingAuthor);
    }
    Ok((author, email.unwrap()))
}

/// The first index of `ids` whose identity has the id `id`.
pub open spec fn position_of(ids: Seq<IdentityModel>, id: Seq<char>) -> Option<int>
    decreases ids.len(),
{
    if ids.len() == 0 {
        None
    } else {
        match position_of(ids.drop_last(), id) {
            Some(i) => Some(i),
            None => if ids.last().id == id {
                Some(ids.len() - 1)
            } else {
                None
            },
        }
    }
}

/// The first index of `ws` whose workspace lies at `path`.
pub open spec fn workspace_at(ws: Seq<WorkspaceModel>, path: Seq<char>) -> Option<int>
    decreases ws.len(),
{
    if ws.len() == 0 {
        None
    } else {
        match workspace_at(ws.drop_last(), path) {
            Some(i) => Some(i),
            None => if ws.last().path == path {
                Some(ws.len() - 1)
            } else {
                None
            },
        }
    }
}

/// An optional index as an optional integer.
pub open spec fn opt_int(o: Option<usize>) -> Option<int> {
    match o {
        Some(i) => Some(i as int),
        None => None,
    }
}

/// Whether `idx` is a 1-based index into a sequence of `len` elements.
pub open spec fn valid_index(idx: usize, len: int) -> bool {
    1 <= idx <= len
}

/// What selecting identity `idx` comes to, given whether the version-control
/// tool took its name and email.
pub open spec fn swap_identity_outcome(d: DataModel, idx: usize, configured: bool) -> Outcome {
    if !valid_index(idx, d.identities.len() as int) {
        Outcome::InvalidIndex
    } else if !configured {
        Outcome::ConfigFailed
    } else {
        Outcome::Swapped
    }
}

/// The registry after selecting identity `idx`.
pub open spec fn swap_identity_data(d: DataModel, idx: usize, configured: bool) -> DataModel {
    if swap_identity_outcome(d, idx, configured) == Outcome::Swapped {
        DataModel { current: Some(d.identities[idx - 1].id), ..d }
    } else {
        d
    }
}

/// What adding a workspace called `name` to `d` comes to.
pub open spec fn add_workspace_outcome(d: DataModel, name: Seq<char>) -> Outcome {
    if d.current is None {
        Outcome::NoCurrentIdentity
    } else if name.len() == 0 {
        Outcome::EmptyName
    } else {
        Outcome::Added
    }
}

/// The registry after adding a workspace called `name` at `pwd`.
pub open spec fn add_workspace_data(d: DataModel, name: Seq<char>, pwd: Seq<char>) -> DataModel {
    if add_workspace_outcome(d, name) == Outcome::Added {
        DataModel {
            workspaces: d.workspaces.push(
                WorkspaceModel { name, path: pwd, identity: d.current->0 },
            ),
            ..d
        }
    } else {
        d
    }
}

/// The id of the current identity, or the empty string when none is set.
pub open spec fn current_or_empty(d: DataModel) -> Seq<char> {
    match d.current {
        Some(c) => c,
        None => Seq::empty(),
    }
}

/// The 1-based index of the identity to select when working in `cwd`: that of
/// the first workspace at `cwd`, when it is found and is not already current.
pub open spec fn auto_swap_target(d: DataModel, cwd: Seq<char>) -> Option<int> {
    match workspace_at(d.workspaces, cwd) {
        None => None,
        Some(w) => match position_of(d.identities, d.workspaces[w].identity) {
            None => None,
            Some(i) => if d.identities[i].id == current_or_empty(d) {
                None
            } else {
                Some(i + 1)
            },
        },
    }
}

/// Where the current identity stands among the identities.
#[derive(Clone, Copy, Debug, PartialEq, Eq, Structural)]
pub enum Lookup {
    Unset,
    Dangling,
    Found(usize),
}

/// The registry with nothing in it.
pub fn default_config() -> (r: Data)
    ensures
        r@ == empty_model(),
{
    let r = Data { current_identity: None, workspaces: Vec::new(), identities: Vec::new() };
    assert(r@.workspaces =~= Seq::<WorkspaceModel>::empty());
    assert(r@.identities =~= Seq::<IdentityModel>::empty());
    r
}

/// Whether `a` and `b` hold the same characters.
fn str_eq(a: &String, b: &String) -> (r: bool)
    ensures
        r == (a@ == b@),
{
    *a == *b
}

impl Data {
    /// Whether an identity equal to `p` is registered.
    fn contains_identity(&self, p: &Identity) -> (r: bool)
        ensures
            r == self@.identities.contains(p@),
    {
        let mut i: usize = 0;
        while i < self.identities.len()
            invariant
                i <= self.identities@.len(),
                forall|j: int| 0 <= j < i ==> self@.identities[j] != p@,
            decreases self.identities@.len() - i,
        {
            let q = &self.identities[i];
            if str_eq(&q.author, &p.author) && str_eq(&q.email, &p.email) && str_eq(&q.id, &p.id) {
                assert(self@.identities[i as int] == p@);
                return true;
            }
            i = i + 1;
        }
        false
    }

    /// The first index of an identity with the id `id`.
    pub fn identity_index(&self, id: &String) -> (r: Option<usize>)
        ensures
            opt_int(r) == position_of(self@.identities, id@),
            r is Some ==> r->0 < self.identities@.len(),
    {
        let ghost ids = self@.identities;
        let mut i: usize = 0;
        while i < self.identities.len()
            invariant
                i <= self.identities@.len(),
                ids == self@.identities,
                position_of(ids.take(i as int), id@) is None,
            decreases self.identities@.len() - i,
        {
            assert(ids.take(i + 1).drop_last() =~= ids.take(i as int));
            if str_eq(&self.identities[i].id, id) {
                proof {
                    lemma_position_prefix(ids, id@, i + 1);
                }
                return Some(i);
            }
            i = i + 1;
        }
        assert(ids.take(i as int) =~= ids);
        None
    }

    /// The first index of a workspace at `path`.
    pub fn workspace_index(&self, path: &String) -> (r: Option<usize>)
        ensures
            opt_int(r) == workspace_at(self@.workspaces, path@),
            r is Some ==> r->0 < self.workspaces@.len(),
    {
        let ghost ws = self@.workspaces;
        let mut i: usize = 0;
        while i < self.workspaces.len()
            invariant
                i <= self.workspaces@.len(),
                ws == self@.workspaces,
                workspace_at(ws.take(i as int), path@) is None,
            decreases self.workspaces@.len() - i,
        {
            assert(ws.take(i + 1).drop_last() =~= ws.take(i as int));
            if str_eq(&self.workspaces[i].path, path) {
                proof {
                    lemma_workspace_prefix(ws, path@, i + 1);
                }
                return Some(i);
            }
            i = i + 1;
        }
        assert(ws.take(i as int) =~= ws);
        None
    }
}

/// A match found in a prefix is the first match of the whole.
proof fn lemma_position_prefix(ids: Seq<IdentityModel>, id: Seq<char>, n: int)
    requires
        0 < n <= ids.len(),
        position_of(ids.take(n), id) is Some,
    ensures
        position_of(ids, id) == position_of(ids.take(n), id),
    decreases ids.len(),
{
    if n < ids.len() {
        assert(ids.drop_last().take(n) =~= ids.take(n));
        lemma_position_prefix(ids.drop_last(), id, n);
    } else {
        assert(ids.take(n) =~= ids);
    }
}

/// A match found in a prefix is the first match of the whole.
proof fn lemma_workspace_prefix(ws: Seq<WorkspaceModel>, path: Seq<char>, n: int)
    requires
        0 < n <= ws.len(),
        workspace_at(ws.take(n), path) is Some,
    ensures
        workspace_at(ws, path) == workspace_at(ws.take(n), path),
    decreases ws.len(),
{
    if n < ws.len() {
        assert(ws.drop_last().take(n) =~= ws.take(n));
        lemma_workspace_prefix(ws.drop_last(), path, n);
    } else {
        assert(ws.take(n) =~= ws);
    }
}

impl Gis {
    /// Adds the identity that `value` gives ("Author Name email@domain").
    pub fn add_identity(&mut self, value: &str) -> (r: Outcome)
        ensures
            r == add_identity_outcome(old(self).data@, value@),
            final(self).data@ == add_identity_data(old(self).data@, value@),
            final(self).config == old(self).config,
            final(self).pwd == old(self).pwd,
    {
        let (author, email) = match parse_identity(value) {
            Ok(p) => p,
            Err(o) => {
                return o;
            },
        };
        let mut canon = author.clone();
        canon.append(" ");
        canon.append(email.as_str());
        proof {
            reveal_strlit(" ");
        }
        assert(canon@ =~= canonical(author@, email@));
        let id = md5_hex_of(canon.as_str());
        let identity = Identity { author, email, id };
        assert(identity@ == identity_of(value@));
        if self.data.contains_identity(&identity) {
            return Outcome::DuplicateIdentity;
        }
        let ghost d = self.data@;
        if self.data.current_identity.is_none() {
            self.data.current_identity = Some(identity.id.clone());
        }
        self.data.identities.push(identity);
        assert(self.data@.identities =~= d.identities.push(identity_of(value@)));
        Outcome::Added
    }

    /// Removes identity `idx` (1-based), whose place the last identity takes.
    pub fn remove_identity(&mut self, idx: usize) -> (r: Option<Identity>)
        ensures
            !valid_index(idx, old(self).data@.identities.len() as int) ==> r is None
                && final(self).data@ == old(self).data@,
            valid_index(idx, old(self).data@.identities.len() as int) ==> r is Some
                && r->0@ == old(self).data@.identities[idx - 1]
                && final(self).data@ == (DataModel {
                identities: swap_removed(old(self).data@.identities, idx - 1),
                ..old(self).data@
            }),
            final(self).config == old(self).config,
            final(self).pwd == old(self).pwd,
    {
        if idx == 0 || idx > self.data.identities.len() {
            return None;
        }
        let ghost v = self.data.identities@;
        let removed = self.data.identities.swap_remove(idx - 1);
        assert(self.data@.identities =~= swap_removed(v.map_values(|i: Identity| i@), idx - 1));
        Some(removed)
    }

    /// The identity at `idx` (1-based), if there is one.
    pub fn identity_at(&self, idx: usize) -> (r: Option<&Identity>)
        ensures
            !valid_index(idx, self.data@.identities.len() as int) ==> r is None,
            valid_index(idx, self.data@.identities.len() as int) ==> r is Some && r->0@
                == self.data@.identities[idx - 1],
    {
        if idx == 0 || idx > self.data.identities.len() {
            None
        } else {
            Some(&self.data.identities[idx - 1])
        }
    }

    /// Makes identity `idx` (1-based) the current one, where `configured` tells
    /// whether the version-control tool took its name and email.
    pub fn swap_identity(&mut self, idx: usize, configured: bool) -> (r: Outcome)
        ensures
            r == swap_identity_outcome(old(self).data@, idx, configured),
            final(self).data@ == swap_identity_data(old(self).data@, idx, configured),
            final(self).config == old(self).config,
            final(self).pwd == old(self).pwd,
    {
        if idx == 0 || idx > self.data.identities.len() {
            return Outcome::InvalidIndex;
        }
        if !configured {
            return Outcome::ConfigFailed;
        }
        let id = self.data.identities[idx - 1].id.clone();
        self.data.current_identity = Some(id);
        Outcome::Swapped
    }

    /// The identities, in order.
    pub fn list_identities(&self) -> (r: &Vec<Identity>)
        ensures
            r@.map_values(|i: Identity| i@) == self.data@.identities,
    {
        &self.data.identities
    }

    /// Adds a workspace called `name`, at the working directory and bound to
    /// the current identity.
    pub fn add_workspace(&mut self, name: &str) -> (r: Outcome)
        ensures
            r == add_workspace_outcome(old(self).data@, name@),
            final(self).data@ == add_workspace_data(old(self).data@, name@, old(self).pwd@),
            final(self).config == old(self).config,
            final(self).pwd == old(self).pwd,
    {
        let current = match &self.data.current_identity {
            Some(c) => c.clone(),
            None => {
                return Outcome::NoCurrentIdentity;
            },
        };
        if name.unicode_len() == 0 {
            return Outcome::EmptyName;
        }
        let ghost d = self.data@;
        let workspace = Workspace { name: name.to_owned(), path: self.pwd.clone(), identity: current };
        self.data.workspaces.push(workspace);
        assert(self.data@.workspaces =~= add_workspace_data(d, name@, self.pwd@).workspaces);
        Outcome::Added
    }

    /// Removes workspace `idx` (1-based), whose place the last workspace takes.
    pub fn remove_workspace(&mut self, idx: usize) -> (r: Option<Workspace>)
        ensures
            !valid_index(idx, old(self).data@.workspaces.len() as int) ==> r is None
                && final(self).data@ == old(self).data@,
            valid_index(idx, old(self).data@.workspaces.len() as int) ==> r is Some
                && r->0@ == old(self).data@.workspaces[idx - 1]
                && final(self).data@ == (DataModel {
                workspaces: swap_removed(old(self).data@.workspaces, idx - 1),
                ..old(self).data@
            }),
            final(self).config == old(self).config,
            final(self).pwd == old(self).pwd,
    {
        if idx == 0 || idx > self.data.workspaces.len() {
            return None;
        }
        let ghost v = self.data.workspaces@;
        let removed = self.data.workspaces.swap_remove(idx - 1);
        assert(self.data@.workspaces =~= swap_removed(v.map_values(|w: Workspace| w@), idx - 1));
        Some(removed)
    }

    /// The workspaces, each with the index of the identity it is bound to, or
    /// `None` where no identity has its id.
    pub fn list_workspaces(&self) -> (r: Vec<(&Workspace, Option<usize>)>)
        ensures
            r@.len() == self.data@.workspaces.len(),
            forall|k: int|
                #![trigger r@[k]]
                0 <= k < r@.len() ==> r@[k].0@ == self.data@.workspaces[k] && opt_int(r@[k].1)
                    == position_of(self.data@.identities, self.data@.workspaces[k].identity),
    {
        let mut r: Vec<(&Workspace, Option<usize>)> = Vec::new();
        let mut k: usize = 0;
        while k < self.data.workspaces.len()
            invariant
                k <= self.data@.workspaces.len(),
                r@.len() == k,
                forall|j: int|
                    #![trigger r@[j]]
                    0 <= j < k ==> r@[j].0@ == self.data@.workspaces[j] && opt_int(r@[j].1)
                        == position_of(self.data@.identities, self.data@.workspaces[j].identity),
            decreases self.data@.workspaces.len() - k,
        {
            let w = &self.data.workspaces[k];
            let i = self.data.identity_index(&w.identity);
            r.push((w, i));
            k = k + 1;
        }
        r
    }

    /// Whether an identity is current and at least one workspace is known.
    pub fn has_identity_and_workspace(&self) -> (r: bool)
        ensures
            r == (self.data@.current is Some && self.data@.workspaces.len() > 0),
    {
        self.data.current_identity.is_some() && self.data.workspaces.len() > 0
    }

    /// Where the current identity stands among the identities.
    pub fn current_identity(&self) -> (r: Lookup)
        ensures
            self.data@.current is None ==> r == Lookup::Unset,
            self.data@.current is Some ==> match position_of(
                self.data@.identities,
                self.data@.current->0,
            ) {
                Some(i) => r == Lookup::Found(i as usize),
                None => r == Lookup::Dangling,
            },
    {
        match &self.data.current_identity {
            None => Lookup::Unset,
            Some(c) => match self.data.identity_index(c) {
                Some(i) => Lookup::Found(i),
                None => Lookup::Dangling,
            },
        }
    }

    /// The 1-based index of the identity to select when working in `cwd`, if
    /// a change is due.
    pub fn workspace_identity_swap(&self, cwd: &str) -> (r: Option<usize>)
        ensures
            opt_int(r) == auto_swap_target(self.data@, cwd@),
    {
        let cwd = cwd.to_owned();
        let w = match self.data.workspace_index(&cwd) {
            Some(w) => w,
            None => {
                return None;
            },
        };
        let i = match self.data.identity_index(&self.data.workspaces[w].identity) {
            Some(i) => i,
            None => {
                return None;
            },
        };
        let current = match &self.data.current_identity {
            Some(c) => c.clone(),
            None => String::new(),
        };
        if str_eq(&self.data.identities[i].id, &current) {
            None
        } else {
            assert(i < self.data.identities.len());
            Some(i + 1)
        }
    }

    /// A registry on the store at `config`: the one `stored` holds, or an
    /// empty one where the store was missing or unreadable.
    pub fn from_config(stored: Option<Data>, config: String, pwd: String) -> (r: Gis)
        ensures
            stored is None ==> r.data@ == empty_model(),
            stored is Some ==> r.data == stored->0,
            r.config == config,
            r.pwd == pwd,
    {
        let data = match stored {
            Some(d) => d,
            None => default_config(),
        };
        Gis { data, config, pwd }
    }
}

} // verus!
