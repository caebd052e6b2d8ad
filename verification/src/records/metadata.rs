//! Game metadata: the standard text fields, free-form attributes, time
//! controls and rule settings of a record, and its builder.
use vstd::prelude::*;
use crate::records::time_control::TimeControl;
use crate::text::{opt_as_str, opt_str, opt_text, push_char, push_str, str_chars, string_from_str};

verus! {

/// Order of texts: lexicographic by characters, a proper prefix first (the
/// order of `String`).
pub open spec fn text_lt(a: Seq<char>, b: Seq<char>) -> bool
    decreases a.len(),
{
    if a.len() == 0 {
        b.len() > 0
    } else if b.len() == 0 {
        false
    } else if a[0] != b[0] {
        a[0] < b[0]
    } else {
        text_lt(a.drop_first(), b.drop_first())
    }
}

/// No text is before itself.
pub proof fn lemma_text_lt_irreflexive(a: Seq<char>)
    ensures
        !text_lt(a, a),
    decreases a.len(),
{
    if a.len() > 0 {
        lemma_text_lt_irreflexive(a.drop_first());
    }
}

/// Of two different texts, one is before the other.
pub proof fn lemma_text_lt_total(a: Seq<char>, b: Seq<char>)
    ensures
        a != b ==> text_lt(a, b) || text_lt(b, a),
    decreases a.len(),
{
    if a.len() > 0 && b.len() > 0 && a[0] == b[0] {
        lemma_text_lt_total(a.drop_first(), b.drop_first());
        if a.drop_first() == b.drop_first() {
            assert(a =~= seq![a[0]] + a.drop_first());
            assert(b =~= seq![b[0]] + b.drop_first());
        }
    } else if a.len() == 0 && b.len() == 0 {
        assert(a =~= b);
    }
}

/// The order is transitive.
pub proof fn lemma_text_lt_transitive(a: Seq<char>, b: Seq<char>, c: Seq<char>)
    requires
        text_lt(a, b),
        text_lt(b, c),
    ensures
        text_lt(a, c),
    decreases a.len(),
{
    if a.len() > 0 && b.len() > 0 && c.len() > 0 && a[0] == b[0] && b[0] == c[0] {
        lemma_text_lt_transitive(a.drop_first(), b.drop_first(), c.drop_first());
    }
}

/// Whether the keys of `s` increase strictly.
pub open spec fn keys_increasing(s: Seq<(String, String)>) -> bool {
    forall|i: int, j: int| 0 <= i < j < s.len() ==> text_lt(#[trigger] s[i].0@, #[trigger] s[j].0@)
}

/// An index of an entry of `s` with key `k`.
pub open spec fn entry_index(s: Seq<(String, String)>, k: Seq<char>) -> int {
    choose|i: int| 0 <= i < s.len() && (#[trigger] s[i]).0@ == k
}

/// The map of key texts to value texts of a list of entries.
pub open spec fn entries_map(s: Seq<(String, String)>) -> Map<Seq<char>, Seq<char>> {
    Map::new(
        |k: Seq<char>| exists|i: int| 0 <= i < s.len() && (#[trigger] s[i]).0@ == k,
        |k: Seq<char>| s[entry_index(s, k)].1@,
    )
}

proof fn lemma_keys_distinct(s: Seq<(String, String)>, i: int, j: int)
    requires
        keys_increasing(s),
        0 <= i < s.len(),
        0 <= j < s.len(),
        s[i].0@ == s[j].0@,
    ensures
        i == j,
{
    lemma_text_lt_irreflexive(s[i].0@);
    if i < j {
        assert(text_lt(s[i].0@, s[j].0@));
    } else if j < i {
        assert(text_lt(s[j].0@, s[i].0@));
    }
}

proof fn lemma_entries_map_at(s: Seq<(String, String)>, i: int)
    requires
        keys_increasing(s),
        0 <= i < s.len(),
    ensures
        entries_map(s).contains_key(s[i].0@),
        entries_map(s)[s[i].0@] == s[i].1@,
{
    let k = s[i].0@;
    assert(exists|j: int| 0 <= j < s.len() && (#[trigger] s[j]).0@ == k);
    let j = entry_index(s, k);
    lemma_keys_distinct(s, i, j);
}

proof fn lemma_entries_map_absent(s: Seq<(String, String)>, k: Seq<char>)
    requires
        forall|i: int| 0 <= i < s.len() ==> (#[trigger] s[i]).0@ != k,
    ensures
        !entries_map(s).contains_key(k),
{
}

/// Text attributes keyed by text, kept in increasing key order.
#[derive(Debug, PartialEq, Eq)]
pub struct AttributeMap {
    entries: Vec<(String, String)>,
}

impl AttributeMap {
    #[verifier::type_invariant]
    spec fn sorted(self) -> bool {
        keys_increasing(self.entries@)
    }

    /// The entries, in increasing key order.
    pub closed spec fn entries_spec(&self) -> Seq<(String, String)> {
        self.entries@
    }
}

impl View for AttributeMap {
    type V = Map<Seq<char>, Seq<char>>;

    closed spec fn view(&self) -> Map<Seq<char>, Seq<char>> {
        entries_map(self.entries@)
    }
}

/// Whether `a` comes before `b`.
fn text_less(a: &[char], b: &[char]) -> (r: bool)
    ensures
        r == text_lt(a@, b@),
{
    let mut i: usize = 0;
    assert(a@.skip(0) =~= a@);
    assert(b@.skip(0) =~= b@);
    while i < a.len() && i < b.len() && a[i] == b[i]
        invariant
            i <= a@.len(),
            i <= b@.len(),
            text_lt(a@, b@) == text_lt(a@.skip(i as int), b@.skip(i as int)),
        decreases a.len() - i,
    {
        assert(a@.skip(i as int).drop_first() =~= a@.skip(i + 1));
        assert(b@.skip(i as int).drop_first() =~= b@.skip(i + 1));
        i += 1;
    }
    if i == a.len() {
        i < b.len()
    } else if i == b.len() {
        false
    } else {
        a[i] < b[i]
    }
}

impl AttributeMap {
    /// No attributes.
    pub fn new() -> (r: AttributeMap)
        ensures
            r@ == Map::<Seq<char>, Seq<char>>::empty(),
            r.entries_spec().len() == 0,
    {
        let r = AttributeMap { entries: Vec::new() };
        assert(r@ =~= Map::<Seq<char>, Seq<char>>::empty());
        r
    }

    /// The number of attributes.
    pub fn len(&self) -> (r: usize)
        ensures
            r == self@.dom().len(),
            r == self.entries_spec().len(),
    {
        proof {
            use_type_invariant(self);
            let keys = self.entries@.map_values(|e: (String, String)| e.0@);
            assert forall|i: int, j: int| 0 <= i < keys.len() && 0 <= j < keys.len() && i != j implies keys[i]
                != keys[j] by {
                if keys[i] == keys[j] {
                    lemma_keys_distinct(self.entries@, i, j);
                }
            }
            keys.unique_seq_to_set();
            assert(self@.dom() =~= keys.to_set()) by {
                assert forall|k: Seq<char>| self@.dom().contains(k) implies keys.to_set().contains(k) by {
                    let i = choose|i: int| 0 <= i < self.entries@.len() && (#[trigger] self.entries@[i]).0@ == k;
                    assert(keys[i] == k);
                }
                assert forall|k: Seq<char>| keys.to_set().contains(k) implies self@.dom().contains(k) by {
                    let i = choose|i: int| 0 <= i < keys.len() && keys[i] == k;
                    assert(self.entries@[i].0@ == k);
                }
            }
        }
        self.entries.len()
    }

    /// Whether there is no attribute.
    pub fn is_empty(&self) -> (r: bool)
        ensures
            r == (self@.dom().len() == 0),
    {
        self.len() == 0
    }

    /// The entries, in increasing key order.
    pub fn entries(&self) -> (r: &[(String, String)])
        ensures
            r@ == self.entries_spec(),
            keys_increasing(r@),
    {
        proof {
            use_type_invariant(self);
        }
        self.entries.as_slice()
    }

    /// The index of the entry with key `key`, or where such an entry belongs.
    fn position(&self, key: &[char]) -> (r: (usize, bool))
        ensures
            r.0 <= self.entries@.len(),
            forall|i: int| 0 <= i < r.0 ==> text_lt(#[trigger] self.entries@[i].0@, key@),
            r.1 ==> r.0 < self.entries@.len() && self.entries@[r.0 as int].0@ == key@,
            !r.1 ==> r.0 == self.entries@.len() || text_lt(key@, self.entries@[r.0 as int].0@),
    {
        proof {
            use_type_invariant(self);
        }
        let n = self.entries.len();
        let mut i: usize = 0;
        while i < n
            invariant
                n == self.entries@.len(),
                i <= n,
                forall|j: int| 0 <= j < i ==> text_lt(#[trigger] self.entries@[j].0@, key@),
            decreases n - i,
        {
            let k = str_chars(self.entries[i].0.as_str());
            if !text_less(k.as_slice(), key) {
                proof {
                    lemma_text_lt_total(self.entries@[i as int].0@, key@);
                }
                if text_less(key, k.as_slice()) {
                    return (i, false);
                }
                return (i, true);
            }
            i += 1;
        }
        (n, false)
    }

    /// The value of attribute `key`.
    pub fn get(&self, key: &str) -> (r: Option<&str>)
        ensures
            match r {
                Some(v) => self@.contains_key(key@) && v@ == self@[key@],
                None => !self@.contains_key(key@),
            },
    {
        proof {
            use_type_invariant(self);
        }
        let k = str_chars(key);
        let (i, found) = self.position(k.as_slice());
        if found {
            proof {
                lemma_entries_map_at(self.entries@, i as int);
            }
            Some(self.entries[i].1.as_str())
        } else {
            proof {
                assert forall|j: int| 0 <= j < self.entries@.len() implies (#[trigger] self.entries@[j]).0@ != key@ by {
                    lemma_text_lt_irreflexive(key@);
                    if j >= i && i < self.entries@.len() {
                        if j > i {
                            assert(text_lt(self.entries@[i as int].0@, self.entries@[j].0@));
                            lemma_text_lt_transitive(key@, self.entries@[i as int].0@, self.entries@[j].0@);
                        }
                    }
                }
            }
            None
        }
    }

    /// Whether there is an attribute `key`.
    pub fn contains_key(&self, key: &str) -> (r: bool)
        ensures
            r == self@.contains_key(key@),
    {
        self.get(key).is_some()
    }

    /// Sets attribute `key` to `value`.
    pub fn insert(&mut self, key: String, value: String)
        ensures
            final(self)@ == old(self)@.insert(key@, value@),
    {
        proof {
            use_type_invariant(&*self);
        }
        let k = str_chars(key.as_str());
        let (i, found) = self.position(k.as_slice());
        let ghost s = self.entries@;
        let ghost kv = key@;
        let ghost vv = value@;
        let mut entries: Vec<(String, String)> = Vec::new();
        std::mem::swap(&mut entries, &mut self.entries);
        if found {
            entries.set(i, (key, value));
            proof {
                let n = entries@;
                assert(n == s.update(i as int, n[i as int]));
                assert(keys_increasing(n)) by {
                    assert forall|a: int, b: int| 0 <= a < b < n.len() implies text_lt(#[trigger] n[a].0@, #[trigger] n[b].0@) by {
                        assert(s[a].0@ == n[a].0@ || a == i);
                        assert(s[b].0@ == n[b].0@ || b == i);
                        assert(text_lt(s[a].0@, s[b].0@));
                    }
                }
                assert(entries_map(n) =~= entries_map(s).insert(kv, vv)) by {
                    assert forall|q: Seq<char>| #[trigger] entries_map(n).contains_key(q) == entries_map(s).insert(kv, vv).contains_key(q) by {
                        if entries_map(s).contains_key(q) {
                            let j = choose|j: int| 0 <= j < s.len() && (#[trigger] s[j]).0@ == q;
                            assert(n[j].0@ == q);
                        }
                        if entries_map(n).contains_key(q) {
                            let j = choose|j: int| 0 <= j < n.len() && (#[trigger] n[j]).0@ == q;
                            assert(s[j].0@ == q);
                        }
                    }
                    assert forall|q: Seq<char>| #[trigger] entries_map(n).contains_key(q) implies entries_map(n)[q]
                        == entries_map(s).insert(kv, vv)[q] by {
                        let j = choose|j: int| 0 <= j < n.len() && (#[trigger] n[j]).0@ == q;
                        lemma_entries_map_at(n, j);
                        if j != i {
                            lemma_entries_map_at(s, j);
                            if q == kv {
                                lemma_keys_distinct(n, i as int, j);
                            }
                        }
                    }
                }
            }
        } else {
            entries.insert(i, (key, value));
            proof {
                let n = entries@;
                assert forall|j: int| i <= j < s.len() implies text_lt(kv, #[trigger] s[j].0@) by {
                    if j > i {
                        assert(text_lt(s[i as int].0@, s[j].0@));
                        lemma_text_lt_transitive(kv, s[i as int].0@, s[j].0@);
                    }
                }
                assert(keys_increasing(n)) by {
                    assert forall|a: int, b: int| 0 <= a < b < n.len() implies text_lt(#[trigger] n[a].0@, #[trigger] n[b].0@) by {
                        if a < i && b < i {
                            assert(text_lt(s[a].0@, s[b].0@));
                        } else if a < i && b == i {
                        } else if a < i {
                            assert(n[b] == s[b - 1]);
                            lemma_text_lt_transitive(s[a].0@, kv, s[b - 1].0@);
                        } else if a == i {
                            assert(n[b] == s[b - 1]);
                        } else {
                            assert(n[a] == s[a - 1] && n[b] == s[b - 1]);
                            assert(text_lt(s[a - 1].0@, s[b - 1].0@));
                        }
                    }
                }
                assert forall|j: int| 0 <= j < s.len() implies (#[trigger] s[j]).0@ != kv by {
                    lemma_text_lt_irreflexive(kv);
                }
                assert(entries_map(n) =~= entries_map(s).insert(kv, vv)) by {
                    assert forall|q: Seq<char>| #[trigger] entries_map(n).contains_key(q) == entries_map(s).insert(kv, vv).contains_key(q) by {
                        if entries_map(s).contains_key(q) {
                            let j = choose|j: int| 0 <= j < s.len() && (#[trigger] s[j]).0@ == q;
                            if j < i {
                                assert(n[j].0@ == q);
                            } else {
                                assert(n[j + 1].0@ == q);
                            }
                        }
                        if q == kv {
                            assert(n[i as int].0@ == q);
                        }
                        if entries_map(n).contains_key(q) {
                            let j = choose|j: int| 0 <= j < n.len() && (#[trigger] n[j]).0@ == q;
                            if j < i {
                                assert(s[j].0@ == q);
                            } else if j > i {
                                assert(s[j - 1].0@ == q);
                            }
                        }
                    }
                    assert forall|q: Seq<char>| #[trigger] entries_map(n).contains_key(q) implies entries_map(n)[q]
                        == entries_map(s).insert(kv, vv)[q] by {
                        let j = choose|j: int| 0 <= j < n.len() && (#[trigger] n[j]).0@ == q;
                        lemma_entries_map_at(n, j);
                        if j < i {
                            lemma_entries_map_at(s, j);
                        } else if j > i {
                            lemma_entries_map_at(s, j - 1);
                        }
                        if j != i && q == kv {
                            lemma_keys_distinct(n, i as int, j);
                        }
                    }
                }
            }
        }
        self.entries = entries;
    }
}

impl AttributeMap {
    /// Removes attribute `key`, if there is one.
    pub fn remove(&mut self, key: &str)
        ensures
            final(self)@ == old(self)@.remove(key@),
    {
        proof {
            use_type_invariant(&*self);
        }
        let k = str_chars(key);
        let (i, found) = self.position(k.as_slice());
        let ghost s = self.entries@;
        let ghost kv = key@;
        if !found {
            proof {
                assert forall|j: int| 0 <= j < s.len() implies (#[trigger] s[j]).0@ != kv by {
                    lemma_text_lt_irreflexive(kv);
                    if j >= i && i < s.len() {
                        if j > i {
                            assert(text_lt(s[i as int].0@, s[j].0@));
                            lemma_text_lt_transitive(kv, s[i as int].0@, s[j].0@);
                        }
                    }
                }
                assert(entries_map(s) =~= entries_map(s).remove(kv));
            }
            return;
        }
        let mut entries: Vec<(String, String)> = Vec::new();
        std::mem::swap(&mut entries, &mut self.entries);
        entries.remove(i);
        proof {
            let n = entries@;
            assert(keys_increasing(n)) by {
                assert forall|a: int, b: int| 0 <= a < b < n.len() implies text_lt(#[trigger] n[a].0@, #[trigger] n[b].0@) by {
                    let a2 = if a < i { a } else { a + 1 };
                    let b2 = if b < i { b } else { b + 1 };
                    assert(n[a] == s[a2] && n[b] == s[b2]);
                    assert(text_lt(s[a2].0@, s[b2].0@));
                }
            }
            assert(entries_map(n) =~= entries_map(s).remove(kv)) by {
                assert forall|q: Seq<char>| #[trigger] entries_map(n).contains_key(q) == entries_map(s).remove(kv).contains_key(q) by {
                    if entries_map(s).contains_key(q) && q != kv {
                        let j = choose|j: int| 0 <= j < s.len() && (#[trigger] s[j]).0@ == q;
                        if j < i {
                            assert(n[j].0@ == q);
                        } else {
                            assert(j != i);
                            assert(n[j - 1].0@ == q);
                        }
                    }
                    if entries_map(n).contains_key(q) {
                        let j = choose|j: int| 0 <= j < n.len() && (#[trigger] n[j]).0@ == q;
                        let j2 = if j < i { j } else { j + 1 };
                        assert(s[j2].0@ == q);
                        if q == kv {
                            lemma_keys_distinct(s, i as int, j2);
                        }
                    }
                }
                assert forall|q: Seq<char>| #[trigger] entries_map(n).contains_key(q) implies entries_map(n)[q]
                    == entries_map(s).remove(kv)[q] by {
                    let j = choose|j: int| 0 <= j < n.len() && (#[trigger] n[j]).0@ == q;
                    let j2 = if j < i { j } else { j + 1 };
                    assert(n[j] == s[j2]);
                    lemma_entries_map_at(n, j);
                    lemma_entries_map_at(s, j2);
                }
            }
        }
        self.entries = entries;
    }
}

impl Clone for AttributeMap {
    fn clone(&self) -> (r: AttributeMap)
        ensures
            r@ == self@,
            r.entries_spec() == self.entries_spec(),
    {
        proof {
            use_type_invariant(self);
        }
        let mut entries: Vec<(String, String)> = Vec::new();
        let n = self.entries.len();
        let mut i: usize = 0;
        while i < n
            invariant
                n == self.entries@.len(),
                i <= n,
                entries@ == self.entries@.take(i as int),
            decreases n - i,
        {
            let e = (self.entries[i].0.clone(), self.entries[i].1.clone());
            entries.push(e);
            i += 1;
            assert(entries@ =~= self.entries@.take(i as int));
        }
        assert(self.entries@.take(n as int) =~= self.entries@);
        AttributeMap { entries }
    }
}

impl core::default::Default for AttributeMap {
    fn default() -> (r: AttributeMap)
        ensures
            r@ == Map::<Seq<char>, Seq<char>>::empty(),
    {
        AttributeMap::new()
    }
}

/// The standard metadata keys of the record formats.
#[derive(Clone, Debug, PartialEq, Eq, PartialOrd, Ord, Hash)]
pub enum RecordMetadataKey {
    Event,
    Site,
    BlackPlayer,
    WhitePlayer,
    GameName,
    GameType,
    StartDate,
    EndDate,
    UpdatedDate,
    Comment,
    Other(String),
}

impl RecordMetadataKey {
    /// The key as a value: the variant's position and, for `Other`, its text.
    pub open spec fn key_view(&self) -> (int, Seq<char>) {
        match self {
            RecordMetadataKey::Event => (0, Seq::empty()),
            RecordMetadataKey::Site => (1, Seq::empty()),
            RecordMetadataKey::BlackPlayer => (2, Seq::empty()),
            RecordMetadataKey::WhitePlayer => (3, Seq::empty()),
            RecordMetadataKey::GameName => (4, Seq::empty()),
            RecordMetadataKey::GameType => (5, Seq::empty()),
            RecordMetadataKey::StartDate => (6, Seq::empty()),
            RecordMetadataKey::EndDate => (7, Seq::empty()),
            RecordMetadataKey::UpdatedDate => (8, Seq::empty()),
            RecordMetadataKey::Comment => (9, Seq::empty()),
            RecordMetadataKey::Other(s) => (10, s@),
        }
    }
}


/// The value of `k` in `m`, if any.
pub open spec fn map_get<K, V>(m: Map<K, V>, k: K) -> Option<V> {
    if m.contains_key(k) {
        Some(m[k])
    } else {
        None
    }
}

/// The view of an optional time control.
pub open spec fn opt_time_control(o: Option<TimeControl>) -> Option<(u32, u32, u32)> {
    match o {
        Some(t) => Some(t@),
        None => None,
    }
}

/// The value of game metadata.
pub struct RecordMetadataView {
    /// The standard fields, by key (see [`RecordMetadataKey::key_view`]).
    pub standard: Map<(int, Seq<char>), Seq<char>>,
    /// The free-form attributes.
    pub custom: Map<Seq<char>, Seq<char>>,
    /// The time control of both sides, by its view.
    pub time_control: Option<(u32, u32, u32)>,
    /// Black's time control, by its view.
    pub black_time_control: Option<(u32, u32, u32)>,
    /// White's time control, by its view.
    pub white_time_control: Option<(u32, u32, u32)>,
    pub max_moves: Option<u32>,
    pub impasse_rule: Option<Seq<char>>,
}

/// Metadata with nothing set.
pub open spec fn empty_metadata() -> RecordMetadataView {
    RecordMetadataView {
        standard: Map::empty(),
        custom: Map::empty(),
        time_control: None,
        black_time_control: None,
        white_time_control: None,
        max_moves: None,
        impasse_rule: None,
    }
}

/// Game metadata.
#[derive(Clone, Debug, PartialEq, Eq)]
pub struct RecordMetadata {
    event: Option<String>,
    site: Option<String>,
    black_player: Option<String>,
    white_player: Option<String>,
    game_name: Option<String>,
    game_type: Option<String>,
    start_date: Option<String>,
    end_date: Option<String>,
    updated_date: Option<String>,
    comment: Option<String>,
    other: AttributeMap,
    custom: AttributeMap,
    time_control: Option<TimeControl>,
    black_time_control: Option<TimeControl>,
    white_time_control: Option<TimeControl>,
    max_moves: Option<u32>,
    impasse_rule: Option<String>,
}

impl RecordMetadata {
    /// The standard field under key `k`.
    closed spec fn standard_at(&self, k: (int, Seq<char>)) -> Option<Seq<char>> {
        if k.0 == 10 {
            map_get(self.other@, k.1)
        } else if k.1 != Seq::<char>::empty() {
            None
        } else if k.0 == 0 {
            opt_text(self.event)
        } else if k.0 == 1 {
            opt_text(self.site)
        } else if k.0 == 2 {
            opt_text(self.black_player)
        } else if k.0 == 3 {
            opt_text(self.white_player)
        } else if k.0 == 4 {
            opt_text(self.game_name)
        } else if k.0 == 5 {
            opt_text(self.game_type)
        } else if k.0 == 6 {
            opt_text(self.start_date)
        } else if k.0 == 7 {
            opt_text(self.end_date)
        } else if k.0 == 8 {
            opt_text(self.updated_date)
        } else if k.0 == 9 {
            opt_text(self.comment)
        } else {
            None
        }
    }
}

impl RecordMetadata {
    /// The free-form attributes, in increasing key order.
    pub closed spec fn attribute_entries(&self) -> Seq<(String, String)> {
        self.custom.entries_spec()
    }
}

impl View for RecordMetadata {
    type V = RecordMetadataView;

    closed spec fn view(&self) -> RecordMetadataView {
        RecordMetadataView {
            standard: Map::new(
                |k: (int, Seq<char>)| self.standard_at(k) is Some,
                |k: (int, Seq<char>)| self.standard_at(k)->Some_0,
            ),
            custom: self.custom@,
            time_control: opt_time_control(self.time_control),
            black_time_control: opt_time_control(self.black_time_control),
            white_time_control: opt_time_control(self.white_time_control),
            max_moves: self.max_moves,
            impasse_rule: opt_text(self.impasse_rule),
        }
    }
}

impl RecordMetadata {
    /// Metadata with nothing set.
    pub fn new() -> (r: RecordMetadata)
        ensures
            r@ == empty_metadata(),
    {
        let r = RecordMetadata {
            event: None,
            site: None,
            black_player: None,
            white_player: None,
            game_name: None,
            game_type: None,
            start_date: None,
            end_date: None,
            updated_date: None,
            comment: None,
            other: AttributeMap::new(),
            custom: AttributeMap::new(),
            time_control: None,
            black_time_control: None,
            white_time_control: None,
            max_moves: None,
            impasse_rule: None,
        };
        assert(r@.standard =~= Map::<(int, Seq<char>), Seq<char>>::empty());
        r
    }

    /// The standard field under `key`.
    pub fn get(&self, key: &RecordMetadataKey) -> (r: Option<&str>)
        ensures
            opt_str(r) == map_get(self@.standard, key.key_view()),
    {
        match key {
            RecordMetadataKey::Event => opt_as_str(&self.event),
            RecordMetadataKey::Site => opt_as_str(&self.site),
            RecordMetadataKey::BlackPlayer => opt_as_str(&self.black_player),
            RecordMetadataKey::WhitePlayer => opt_as_str(&self.white_player),
            RecordMetadataKey::GameName => opt_as_str(&self.game_name),
            RecordMetadataKey::GameType => opt_as_str(&self.game_type),
            RecordMetadataKey::StartDate => opt_as_str(&self.start_date),
            RecordMetadataKey::EndDate => opt_as_str(&self.end_date),
            RecordMetadataKey::UpdatedDate => opt_as_str(&self.updated_date),
            RecordMetadataKey::Comment => opt_as_str(&self.comment),
            RecordMetadataKey::Other(s) => self.other.get(s.as_str()),
        }
    }

    /// The free-form attributes.
    pub fn custom(&self) -> (r: &AttributeMap)
        ensures
            r@ == self@.custom,
    {
        &self.custom
    }

    /// The event.
    pub fn event(&self) -> (r: Option<&str>)
        ensures
            opt_str(r) == map_get(self@.standard, RecordMetadataKey::Event.key_view()),
    {
        self.get(&RecordMetadataKey::Event)
    }

    /// The site.
    pub fn site(&self) -> (r: Option<&str>)
        ensures
            opt_str(r) == map_get(self@.standard, RecordMetadataKey::Site.key_view()),
    {
        self.get(&RecordMetadataKey::Site)
    }

    /// The black player.
    pub fn black_player(&self) -> (r: Option<&str>)
        ensures
            opt_str(r) == map_get(self@.standard, RecordMetadataKey::BlackPlayer.key_view()),
    {
        self.get(&RecordMetadataKey::BlackPlayer)
    }

    /// The white player.
    pub fn white_player(&self) -> (r: Option<&str>)
        ensures
            opt_str(r) == map_get(self@.standard, RecordMetadataKey::WhitePlayer.key_view()),
    {
        self.get(&RecordMetadataKey::WhitePlayer)
    }

    /// The game name.
    pub fn game_name(&self) -> (r: Option<&str>)
        ensures
            opt_str(r) == map_get(self@.standard, RecordMetadataKey::GameName.key_view()),
    {
        self.get(&RecordMetadataKey::GameName)
    }

    /// The game type.
    pub fn game_type(&self) -> (r: Option<&str>)
        ensures
            opt_str(r) == map_get(self@.standard, RecordMetadataKey::GameType.key_view()),
    {
        self.get(&RecordMetadataKey::GameType)
    }

    /// The time control of both sides.
    pub fn time_control(&self) -> (r: Option<&TimeControl>)
        ensures
            match r {
                Some(t) => self@.time_control == Some(t@),
                None => self@.time_control is None,
            },
    {
        self.time_control.as_ref()
    }

    /// Black's time control.
    pub fn black_time_control(&self) -> (r: Option<&TimeControl>)
        ensures
            match r {
                Some(t) => self@.black_time_control == Some(t@),
                None => self@.black_time_control is None,
            },
    {
        self.black_time_control.as_ref()
    }

    /// White's time control.
    pub fn white_time_control(&self) -> (r: Option<&TimeControl>)
        ensures
            match r {
                Some(t) => self@.white_time_control == Some(t@),
                None => self@.white_time_control is None,
            },
    {
        self.white_time_control.as_ref()
    }

    /// The move limit.
    pub fn max_moves(&self) -> (r: Option<u32>)
        ensures
            r == self@.max_moves,
    {
        self.max_moves
    }

    /// The impasse (entering-king) rule text.
    pub fn impasse_rule(&self) -> (r: Option<&str>)
        ensures
            opt_str(r) == self@.impasse_rule,
    {
        opt_as_str(&self.impasse_rule)
    }

    /// The start date.
    pub fn start_date(&self) -> (r: Option<&str>)
        ensures
            opt_str(r) == map_get(self@.standard, RecordMetadataKey::StartDate.key_view()),
    {
        self.get(&RecordMetadataKey::StartDate)
    }

    /// The end date.
    pub fn end_date(&self) -> (r: Option<&str>)
        ensures
            opt_str(r) == map_get(self@.standard, RecordMetadataKey::EndDate.key_view()),
    {
        self.get(&RecordMetadataKey::EndDate)
    }

    /// The date of the last update.
    pub fn updated_date(&self) -> (r: Option<&str>)
        ensures
            opt_str(r) == map_get(self@.standard, RecordMetadataKey::UpdatedDate.key_view()),
    {
        self.get(&RecordMetadataKey::UpdatedDate)
    }

    /// The comment.
    pub fn comment(&self) -> (r: Option<&str>)
        ensures
            opt_str(r) == map_get(self@.standard, RecordMetadataKey::Comment.key_view()),
    {
        self.get(&RecordMetadataKey::Comment)
    }

    /// The free-form attributes (the same map as [`RecordMetadata::custom`]).
    pub fn attributes(&self) -> (r: &AttributeMap)
        ensures
            r@ == self@.custom,
            r.entries_spec() == self.attribute_entries(),
    {
        &self.custom
    }

    /// A builder starting from empty metadata.
    pub fn builder() -> (r: RecordMetadataBuilder)
        ensures
            r@ == empty_metadata(),
    {
        RecordMetadataBuilder { metadata: RecordMetadata::new() }
    }
}

impl core::default::Default for RecordMetadata {
    fn default() -> (r: RecordMetadata)
        ensures
            r@ == empty_metadata(),
    {
        RecordMetadata::new()
    }
}

/// The builder of [`RecordMetadata`].
pub struct RecordMetadataBuilder {
    metadata: RecordMetadata,
}

impl View for RecordMetadataBuilder {
    type V = RecordMetadataView;

    closed spec fn view(&self) -> RecordMetadataView {
        self.metadata@
    }
}

/// `m` with the standard field `k` set to `value`, or removed for `None`.
pub open spec fn with_standard(m: RecordMetadataView, k: (int, Seq<char>), value: Option<Seq<char>>) -> RecordMetadataView {
    RecordMetadataView {
        standard: match value {
            Some(v) => m.standard.insert(k, v),
            None => m.standard.remove(k),
        },
        ..m
    }
}

impl core::default::Default for RecordMetadataBuilder {
    fn default() -> (r: RecordMetadataBuilder)
        ensures
            r@ == empty_metadata(),
    {
        RecordMetadata::builder()
    }
}

impl RecordMetadata {
    fn set_standard_field(&mut self, key: RecordMetadataKey, value: Option<String>)
        ensures
            final(self)@ == with_standard(old(self)@, key.key_view(), opt_text(value)),
    {
        let ghost kv = key.key_view();
        let ghost vv = opt_text(value);
        let ghost old_self = *self;
        match key {
            RecordMetadataKey::Event => self.event = value,
            RecordMetadataKey::Site => self.site = value,
            RecordMetadataKey::BlackPlayer => self.black_player = value,
            RecordMetadataKey::WhitePlayer => self.white_player = value,
            RecordMetadataKey::GameName => self.game_name = value,
            RecordMetadataKey::GameType => self.game_type = value,
            RecordMetadataKey::StartDate => self.start_date = value,
            RecordMetadataKey::EndDate => self.end_date = value,
            RecordMetadataKey::UpdatedDate => self.updated_date = value,
            RecordMetadataKey::Comment => self.comment = value,
            RecordMetadataKey::Other(name) => {
                match value {
                    Some(v) => self.other.insert(name, v),
                    None => self.other.remove(name.as_str()),
                }
            },
        }
        assert(self@.standard =~= with_standard(old_self@, kv, vv).standard);
    }
}

impl RecordMetadataBuilder {
    /// Sets the standard field `key`, or removes it for `None`.
    pub fn set_standard(&mut self, key: RecordMetadataKey, value: Option<String>) -> (r: &mut Self)
        ensures
            r@ == with_standard(old(self)@, key.key_view(), opt_text(value)),
            *final(self) == *final(r),
    {
        self.metadata.set_standard_field(key, value);
        self
    }
}

/// The comment after appending a line: the line alone when there was no
/// comment or an empty one, else the comment, a line break and the line;
/// unchanged for an empty line.
pub open spec fn appended_comment(comment: Option<Seq<char>>, line: Seq<char>) -> Option<Seq<char>> {
    if line.len() == 0 {
        comment
    } else {
        match comment {
            None => Some(line),
            Some(c) => if c.len() == 0 {
                Some(line)
            } else {
                Some(c.push('\n') + line)
            },
        }
    }
}

impl RecordMetadataBuilder {
    /// Sets the event.
    pub fn event(&mut self, value: Option<String>) -> (r: &mut Self)
        ensures
            r@ == with_standard(old(self)@, RecordMetadataKey::Event.key_view(), opt_text(value)),
            *final(self) == *final(r),
    {
        self.set_standard(RecordMetadataKey::Event, value)
    }

    /// Sets the site.
    pub fn site(&mut self, value: Option<String>) -> (r: &mut Self)
        ensures
            r@ == with_standard(old(self)@, RecordMetadataKey::Site.key_view(), opt_text(value)),
            *final(self) == *final(r),
    {
        self.set_standard(RecordMetadataKey::Site, value)
    }

    /// Sets the black player.
    pub fn black_player(&mut self, value: Option<String>) -> (r: &mut Self)
        ensures
            r@ == with_standard(old(self)@, RecordMetadataKey::BlackPlayer.key_view(), opt_text(value)),
            *final(self) == *final(r),
    {
        self.set_standard(RecordMetadataKey::BlackPlayer, value)
    }

    /// Sets the white player.
    pub fn white_player(&mut self, value: Option<String>) -> (r: &mut Self)
        ensures
            r@ == with_standard(old(self)@, RecordMetadataKey::WhitePlayer.key_view(), opt_text(value)),
            *final(self) == *final(r),
    {
        self.set_standard(RecordMetadataKey::WhitePlayer, value)
    }

    /// Sets the game name.
    pub fn game_name(&mut self, value: Option<String>) -> (r: &mut Self)
        ensures
            r@ == with_standard(old(self)@, RecordMetadataKey::GameName.key_view(), opt_text(value)),
            *final(self) == *final(r),
    {
        self.set_standard(RecordMetadataKey::GameName, value)
    }

    /// Sets the game type.
    pub fn game_type(&mut self, value: Option<String>) -> (r: &mut Self)
        ensures
            r@ == with_standard(old(self)@, RecordMetadataKey::GameType.key_view(), opt_text(value)),
            *final(self) == *final(r),
    {
        self.set_standard(RecordMetadataKey::GameType, value)
    }

    /// Sets the time control of both sides.
    pub fn time_control(&mut self, value: Option<TimeControl>) -> (r: &mut Self)
        ensures
            r@ == (RecordMetadataView { time_control: opt_time_control(value), ..old(self)@ }),
            *final(self) == *final(r),
    {
        let ghost before = self@;
        self.metadata.time_control = value;
        assert(self@.standard =~= before.standard);
        self
    }

    /// Sets Black's time control.
    pub fn black_time_control(&mut self, value: Option<TimeControl>) -> (r: &mut Self)
        ensures
            r@ == (RecordMetadataView { black_time_control: opt_time_control(value), ..old(self)@ }),
            *final(self) == *final(r),
    {
        let ghost before = self@;
        self.metadata.black_time_control = value;
        assert(self@.standard =~= before.standard);
        self
    }

    /// Sets White's time control.
    pub fn white_time_control(&mut self, value: Option<TimeControl>) -> (r: &mut Self)
        ensures
            r@ == (RecordMetadataView { white_time_control: opt_time_control(value), ..old(self)@ }),
            *final(self) == *final(r),
    {
        let ghost before = self@;
        self.metadata.white_time_control = value;
        assert(self@.standard =~= before.standard);
        self
    }

    /// Sets the move limit.
    pub fn max_moves(&mut self, value: Option<u32>) -> (r: &mut Self)
        ensures
            r@ == (RecordMetadataView { max_moves: value, ..old(self)@ }),
            *final(self) == *final(r),
    {
        let ghost before = self@;
        self.metadata.max_moves = value;
        assert(self@.standard =~= before.standard);
        self
    }

    /// Sets the impasse rule text.
    pub fn impasse_rule(&mut self, value: Option<String>) -> (r: &mut Self)
        ensures
            r@ == (RecordMetadataView { impasse_rule: opt_text(value), ..old(self)@ }),
            *final(self) == *final(r),
    {
        let ghost before = self@;
        self.metadata.impasse_rule = value;
        assert(self@.standard =~= before.standard);
        self
    }

    /// Sets the start date.
    pub fn start_date(&mut self, value: Option<String>) -> (r: &mut Self)
        ensures
            r@ == with_standard(old(self)@, RecordMetadataKey::StartDate.key_view(), opt_text(value)),
            *final(self) == *final(r),
    {
        self.set_standard(RecordMetadataKey::StartDate, value)
    }

    /// Sets the end date.
    pub fn end_date(&mut self, value: Option<String>) -> (r: &mut Self)
        ensures
            r@ == with_standard(old(self)@, RecordMetadataKey::EndDate.key_view(), opt_text(value)),
            *final(self) == *final(r),
    {
        self.set_standard(RecordMetadataKey::EndDate, value)
    }

    /// Sets the date of the last update.
    pub fn updated_date(&mut self, value: Option<String>) -> (r: &mut Self)
        ensures
            r@ == with_standard(old(self)@, RecordMetadataKey::UpdatedDate.key_view(), opt_text(value)),
            *final(self) == *final(r),
    {
        self.set_standard(RecordMetadataKey::UpdatedDate, value)
    }

    /// Sets the comment.
    pub fn comment(&mut self, value: Option<String>) -> (r: &mut Self)
        ensures
            r@ == with_standard(old(self)@, RecordMetadataKey::Comment.key_view(), opt_text(value)),
            *final(self) == *final(r),
    {
        self.set_standard(RecordMetadataKey::Comment, value)
    }

    /// Appends a line to the comment (see [`appended_comment`]).
    pub fn append_comment_line(&mut self, value: &str) -> (r: &mut Self)
        ensures
            value@.len() == 0 ==> r@ == old(self)@,
            value@.len() > 0 ==> r@ == with_standard(
                old(self)@,
                RecordMetadataKey::Comment.key_view(),
                appended_comment(map_get(old(self)@.standard, RecordMetadataKey::Comment.key_view()), value@),
            ),
            *final(self) == *final(r),
    {
        if value.is_empty() {
            return self;
        }
        let ghost before = self@;
        let line = match &self.metadata.comment {
            Some(c) => {
                let mut s = c.clone();
                if !c.as_str().is_empty() {
                    push_char(&mut s, '\n');
                }
                push_str(&mut s, value);
                s
            },
            None => string_from_str(value),
        };
        assert(map_get(before.standard, RecordMetadataKey::Comment.key_view()) == opt_text(self.metadata.comment));
        self.metadata.set_standard_field(RecordMetadataKey::Comment, Some(line));
        self
    }

    /// Sets the attribute `key` to `value`.
    pub fn add_attribute(&mut self, key: String, value: String) -> (r: &mut Self)
        ensures
            r@ == (RecordMetadataView { custom: old(self)@.custom.insert(key@, value@), ..old(self)@ }),
            *final(self) == *final(r),
    {
        let ghost before = self@;
        self.metadata.custom.insert(key, value);
        assert(self@.standard =~= before.standard);
        self
    }

    /// The metadata built.
    pub fn build(self) -> (r: RecordMetadata)
        ensures
            r@ == self@,
    {
        self.metadata
    }
}

/// Reading a standard field back after setting it gives the value set (none
/// after a removal); every other key reads as before.
pub proof fn lemma_standard_set_get(
    m: RecordMetadataView,
    k: (int, Seq<char>),
    v: Option<Seq<char>>,
    q: (int, Seq<char>),
)
    ensures
        map_get(with_standard(m, k, v).standard, q) == (if q == k {
            v
        } else {
            map_get(m.standard, q)
        }),
{
}

/// Appending two non-empty lines to no comment gives the first line, a line
/// break and the second.
pub proof fn lemma_append_comment_lines(a: Seq<char>, b: Seq<char>)
    requires
        a.len() > 0,
        b.len() > 0,
    ensures
        appended_comment(appended_comment(None, a), b) == Some(a.push('\n') + b),
{
}

} // verus!
