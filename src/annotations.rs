//! The annotation set written after a fence opener, and its parser.
use vstd::prelude::*;
use crate::text::{chars_of, owned, push_str, string_of, trim, trimmed};

verus! {

/// Entries in insertion order; the first entry for a key is the one that counts.
pub open spec fn lookup(es: Seq<(Seq<char>, Option<Seq<char>>)>, k: Seq<char>) -> Option<Option<Seq<char>>>
    decreases es.len(),
{
    if es.len() == 0 {
        None
    } else if es[0].0 == k {
        Some(es[0].1)
    } else {
        lookup(es.drop_first(), k)
    }
}

proof fn lemma_lookup_at(es: Seq<(Seq<char>, Option<Seq<char>>)>, k: Seq<char>, i: int)
    requires
        0 <= i < es.len(),
        es[i].0 == k,
        forall|j: int| 0 <= j < i ==> es[j].0 != k,
    ensures
        lookup(es, k) == Some(es[i].1),
    decreases i,
{
    if i > 0 {
        lemma_lookup_at(es.drop_first(), k, i - 1);
    }
}

proof fn lemma_lookup_none(es: Seq<(Seq<char>, Option<Seq<char>>)>, k: Seq<char>)
    requires
        forall|j: int| 0 <= j < es.len() ==> es[j].0 != k,
    ensures
        lookup(es, k) is None,
    decreases es.len(),
{
    if es.len() > 0 {
        lemma_lookup_none(es.drop_first(), k);
    }
}

proof fn lemma_lookup_update(es: Seq<(Seq<char>, Option<Seq<char>>)>, i: int, v: Option<Seq<char>>, k: Seq<char>)
    requires
        0 <= i < es.len(),
        k != es[i].0,
    ensures
        lookup(es.update(i, (es[i].0, v)), k) == lookup(es, k),
    decreases i,
{
    if i > 0 {
        assert(es.update(i, (es[i].0, v)).drop_first() =~= es.drop_first().update(i - 1, (es[i].0, v)));
        lemma_lookup_update(es.drop_first(), i - 1, v, k);
    } else {
        assert(es.update(i, (es[i].0, v)).drop_first() =~= es.drop_first());
    }
}

proof fn lemma_lookup_push(es: Seq<(Seq<char>, Option<Seq<char>>)>, e: (Seq<char>, Option<Seq<char>>), k: Seq<char>)
    requires
        lookup(es, k) is Some || k != e.0,
    ensures
        lookup(es.push(e), k) == lookup(es, k),
    decreases es.len(),
{
    if es.len() > 0 {
        assert(es.push(e).drop_first() =~= es.drop_first().push(e));
        if es[0].0 != k {
            lemma_lookup_push(es.drop_first(), e, k);
        }
    } else {
        assert(es.push(e).drop_first() =~= es);
    }
}

/// The set of annotations on one code fragment: each key maps to an optional value.
#[derive(Debug, Clone)]
pub struct Annotations {
    entries: Vec<(String, Option<String>)>,
}

impl View for Annotations {
    type V = Map<Seq<char>, Option<Seq<char>>>;

    closed spec fn view(&self) -> Map<Seq<char>, Option<Seq<char>>> {
        let es = self.entries.deep_view();
        Map::new(|k: Seq<char>| lookup(es, k) is Some, |k: Seq<char>| lookup(es, k)->0)
    }
}

/// No key occurs in two entries.
pub open spec fn distinct_keys(es: Seq<(Seq<char>, Option<Seq<char>>)>) -> bool {
    forall|i: int, j: int| 0 <= i < j < es.len() ==> #[trigger] es[i].0 != #[trigger] es[j].0
}

impl Annotations {
    /// Each key is held once.
    pub closed spec fn wf(&self) -> bool {
        distinct_keys(self.entries.deep_view())
    }

    /// An empty annotation set.
    pub fn new() -> (r: Annotations)
        ensures
            r@ == Map::<Seq<char>, Option<Seq<char>>>::empty(),
            r.wf(),
    {
        let r = Annotations { entries: Vec::new() };
        assert(r@ =~= Map::<Seq<char>, Option<Seq<char>>>::empty());
        r
    }

    fn find(&self, key: &String) -> (r: Option<usize>)
        ensures
            match r {
                Some(i) => i < self.entries@.len() && self.entries@[i as int].0@ == key@
                    && (forall|j: int| 0 <= j < i ==> self.entries.deep_view()[j].0 != key@)
                    && lookup(self.entries.deep_view(), key@) == Some(self.entries@[i as int].1.deep_view()),
                None => (forall|j: int| 0 <= j < self.entries@.len() ==> self.entries.deep_view()[j].0 != key@)
                    && lookup(self.entries.deep_view(), key@) is None,
            },
    {
        let ghost es = self.entries.deep_view();
        let mut i: usize = 0;
        while i < self.entries.len()
            invariant
                i <= self.entries@.len(),
                es == self.entries.deep_view(),
                forall|j: int| 0 <= j < i ==> es[j].0 != key@,
            decreases self.entries.len() - i,
        {
            if self.entries[i].0.eq(key) {
                proof {
                    lemma_lookup_at(es, key@, i as int);
                }
                return Some(i);
            }
            i = i + 1;
        }
        proof {
            lemma_lookup_none(es, key@);
        }
        None
    }

    /// Sets `key` to `value`, replacing what it held.
    pub fn insert(&mut self, key: String, value: Option<String>)
        requires
            old(self).wf(),
        ensures
            final(self)@ == old(self)@.insert(key@, value.deep_view()),
            final(self).wf(),
    {
        let ghost es = self.entries.deep_view();
        match self.find(&key) {
            Some(i) => {
                let k2 = self.entries[i].0.clone();
                self.entries.set(i, (k2, value));
                proof {
                    let ns = self.entries.deep_view();
                    assert(ns =~= es.update(i as int, (es[i as int].0, value.deep_view())));
                    assert forall|k: Seq<char>| k != key@ implies lookup(ns, k) == lookup(es, k) by {
                        lemma_lookup_update(es, i as int, value.deep_view(), k);
                    }
                    assert forall|j: int| 0 <= j < i implies ns[j].0 != key@ by {
                        assert(ns[j] == es[j]);
                    }
                    lemma_lookup_at(ns, key@, i as int);
                    assert(final(self)@ =~= old(self)@.insert(key@, value.deep_view()));
                    assert forall|x: int, y: int| 0 <= x < y < ns.len() implies #[trigger] ns[x].0 != #[trigger] ns[y].0 by {
                        assert(ns[x].0 == es[x].0 && ns[y].0 == es[y].0);
                    }
                }
            },
            None => {
                self.entries.push((key, value));
                proof {
                    let ns = self.entries.deep_view();
                    assert(ns =~= es.push((key@, value.deep_view())));
                    assert forall|k: Seq<char>| k != key@ implies lookup(ns, k) == lookup(es, k) by {
                        lemma_lookup_push(es, (key@, value.deep_view()), k);
                    }
                    assert forall|j: int| 0 <= j < es.len() implies ns[j].0 != key@ by {
                        assert(ns[j] == es[j]);
                    }
                    lemma_lookup_at(ns, key@, es.len() as int);
                    assert(final(self)@ =~= old(self)@.insert(key@, value.deep_view()));
                    assert forall|x: int, y: int| 0 <= x < y < ns.len() implies #[trigger] ns[x].0 != #[trigger] ns[y].0 by {
                        assert(ns[x] == es[x]);
                        if y < es.len() {
                            assert(ns[y] == es[y]);
                        }
                    }
                }
            },
        }
    }

    /// Whether `key` is present, with or without a value.
    pub fn contains_key(&self, key: &str) -> (r: bool)
        ensures
            r == self@.contains_key(key@),
    {
        let k = owned(key);
        self.find(&k).is_some()
    }

    /// What `key` holds: `None` where it is absent, `Some(&None)` for a bare flag.
    pub fn get(&self, key: &str) -> (r: Option<&Option<String>>)
        ensures
            match r {
                Some(v) => self@.contains_key(key@) && self@[key@] == v.deep_view(),
                None => !self@.contains_key(key@),
            },
    {
        let k = owned(key);
        match self.find(&k) {
            Some(i) => Some(&self.entries[i].1),
            None => None,
        }
    }

    /// The value of `key`, where it is present and has one.
    pub fn value_of(&self, key: &str) -> (r: Option<String>)
        ensures
            r.deep_view() == value_in(self@, key@),
    {
        match self.get(key) {
            Some(Some(v)) => Some(v.clone()),
            _ => None,
        }
    }
}

/// The value that `key` holds in `m`, where it is present and has one.
pub open spec fn value_in(m: Map<Seq<char>, Option<Seq<char>>>, key: Seq<char>) -> Option<Seq<char>> {
    if m.contains_key(key) {
        m[key]
    } else {
        None
    }
}


/// Where the annotation parser stands after a prefix of its input.
pub ghost struct ParseState {
    pub key: Seq<char>,
    pub value: Seq<char>,
    pub in_value: bool,
    pub in_quotes: bool,
    pub found: Map<Seq<char>, Option<Seq<char>>>,
}

/// The state before any input.
pub open spec fn start_state() -> ParseState {
    ParseState {
        key: Seq::empty(),
        value: Seq::empty(),
        in_value: false,
        in_quotes: false,
        found: Map::empty(),
    }
}

/// Ends the annotation being read: a bare key is a flag, a key with a value records the
/// trimmed value, a key whose value is empty records nothing.
pub open spec fn flush(st: ParseState) -> Map<Seq<char>, Option<Seq<char>>> {
    let k = trim(st.key);
    if k.len() == 0 {
        st.found
    } else if st.in_value && st.value.len() > 0 {
        st.found.insert(k, Some(trim(st.value)))
    } else if !st.in_value {
        st.found.insert(k, None)
    } else {
        st.found
    }
}

/// One character of input: `=` starts a value, `"` toggles quoting, `,` ends an annotation,
/// anything else (and `=` or `,` inside quotes) is text of the key or the value.
pub open spec fn step(st: ParseState, c: char) -> ParseState {
    if c == '=' && !st.in_quotes {
        if st.key.len() > 0 {
            ParseState { in_value: true, value: Seq::empty(), ..st }
        } else {
            st
        }
    } else if c == '"' {
        ParseState { in_quotes: !st.in_quotes, ..st }
    } else if c == ',' && !st.in_quotes {
        ParseState { key: Seq::empty(), value: Seq::empty(), in_value: false, found: flush(st), ..st }
    } else if st.in_value {
        ParseState { value: st.value.push(c), ..st }
    } else {
        ParseState { key: st.key.push(c), ..st }
    }
}

/// The state after reading all of `s`.
pub open spec fn run(s: Seq<char>) -> ParseState
    decreases s.len(),
{
    if s.len() == 0 {
        start_state()
    } else {
        step(run(s.drop_last()), s.last())
    }
}

/// The annotation set that the text `s` describes.
pub open spec fn parse(s: Seq<char>) -> Map<Seq<char>, Option<Seq<char>>> {
    flush(run(s))
}

fn flush_into(found: &mut Annotations, key: &Vec<char>, value: &Vec<char>, in_value: bool)
    requires
        old(found).wf(),
    ensures
        final(found).wf(),
        final(found)@ == flush(ParseState { key: key@, value: value@, in_value, in_quotes: false, found: old(found)@ }),
{
    let k = trimmed(key);
    if k.len() == 0 {
        return;
    }
    if in_value && value.len() > 0 {
        let v = trimmed(value);
        found.insert(string_of(&k), Some(string_of(&v)));
    } else if !in_value {
        found.insert(string_of(&k), None);
    }
}

/// Parses an annotation string: comma-separated bare flags and `key=value` pairs, where a
/// double-quoted stretch may hold commas and equals signs. A quote left open is not an error.
pub fn parse_annotations(text: &str) -> (r: Annotations)
    ensures
        r@ == parse(text@),
        r.wf(),
{
    let s = chars_of(text);
    let mut key: Vec<char> = Vec::new();
    let mut value: Vec<char> = Vec::new();
    let mut in_value = false;
    let mut in_quotes = false;
    let mut found = Annotations::new();
    let mut i: usize = 0;
    assert(s@.subrange(0, 0) =~= Seq::<char>::empty());
    while i < s.len()
        invariant
            i <= s.len(),
            s@ == text@,
            found.wf(),
            run(s@.subrange(0, i as int)) == (ParseState { key: key@, value: value@, in_value, in_quotes, found: found@ }),
        decreases s.len() - i,
    {
        let c = s[i];
        proof {
            assert(s@.subrange(0, i + 1).drop_last() =~= s@.subrange(0, i as int));
        }
        if c == '=' && !in_quotes {
            if key.len() > 0 {
                in_value = true;
                value = Vec::new();
            }
        } else if c == '"' {
            in_quotes = !in_quotes;
        } else if c == ',' && !in_quotes {
            flush_into(&mut found, &key, &value, in_value);
            key = Vec::new();
            value = Vec::new();
            in_value = false;
        } else if in_value {
            value.push(c);
        } else {
            key.push(c);
        }
        i = i + 1;
        assert(key@ == run(s@.subrange(0, i as int)).key);
        assert(value@ == run(s@.subrange(0, i as int)).value);
    }
    assert(s@.subrange(0, s.len() as int) =~= s@);
    flush_into(&mut found, &key, &value, in_value);
    found
}


/// The state after reading `s` from `st`.
pub open spec fn run_from(st: ParseState, s: Seq<char>) -> ParseState
    decreases s.len(),
{
    if s.len() == 0 {
        st
    } else {
        step(run_from(st, s.drop_last()), s.last())
    }
}

proof fn lemma_run_is_run_from(s: Seq<char>)
    ensures
        run(s) == run_from(start_state(), s),
    decreases s.len(),
{
    if s.len() > 0 {
        lemma_run_is_run_from(s.drop_last());
    }
}

proof fn lemma_run_from_concat(st: ParseState, a: Seq<char>, b: Seq<char>)
    ensures
        run_from(st, a + b) == run_from(run_from(st, a), b),
    decreases b.len(),
{
    if b.len() == 0 {
        assert(a + b =~= a);
    } else {
        assert((a + b).drop_last() =~= a + b.drop_last());
        assert((a + b).last() == b.last());
        lemma_run_from_concat(st, a, b.drop_last());
    }
}

/// A key that reads back as itself: not empty, without surrounding white space, and free of
/// the characters that delimit annotations.
pub open spec fn plain_key(k: Seq<char>) -> bool {
    k.len() > 0 && trim(k) == k && forall|i: int| 0 <= i < k.len() ==> #[trigger] k[i] != ',' && k[i] != '=' && k[i] != '"'
}

/// A value that reads back as itself once quoted: not empty, without surrounding white space,
/// and without a double quote.
pub open spec fn plain_value(v: Seq<char>) -> bool {
    v.len() > 0 && trim(v) == v && forall|i: int| 0 <= i < v.len() ==> #[trigger] v[i] != '"'
}

/// One annotation written in the legal syntax.
pub open spec fn legal_entry(e: (Seq<char>, Option<Seq<char>>)) -> bool {
    plain_key(e.0) && match e.1 {
        Some(v) => plain_value(v),
        None => true,
    }
}

/// A list of annotations written in the legal syntax.
pub open spec fn legal(es: Seq<(Seq<char>, Option<Seq<char>>)>) -> bool {
    forall|i: int| 0 <= i < es.len() ==> legal_entry(#[trigger] es[i])
}

/// The text of one annotation: a bare key, or a key and its quoted value.
pub open spec fn entry_text(e: (Seq<char>, Option<Seq<char>>)) -> Seq<char> {
    match e.1 {
        Some(v) => e.0 + "=\""@ + v + "\""@,
        None => e.0,
    }
}

/// The annotations of `es` separated by commas.
pub open spec fn serialized(es: Seq<(Seq<char>, Option<Seq<char>>)>) -> Seq<char>
    decreases es.len(),
{
    if es.len() == 0 {
        Seq::empty()
    } else if es.len() == 1 {
        entry_text(es[0])
    } else {
        serialized(es.drop_last()) + ","@ + entry_text(es.last())
    }
}

/// The map that the annotations of `es` make, a later entry for a key replacing an earlier one.
pub open spec fn map_of(es: Seq<(Seq<char>, Option<Seq<char>>)>) -> Map<Seq<char>, Option<Seq<char>>>
    decreases es.len(),
{
    if es.len() == 0 {
        Map::empty()
    } else {
        map_of(es.drop_last()).insert(es.last().0, es.last().1)
    }
}

/// A state between annotations, with `m` found so far.
pub open spec fn between(m: Map<Seq<char>, Option<Seq<char>>>) -> ParseState {
    ParseState { key: Seq::empty(), value: Seq::empty(), in_value: false, in_quotes: false, found: m }
}

/// The state right after the text of annotation `e`, with `m` found before it.
pub open spec fn after_entry(m: Map<Seq<char>, Option<Seq<char>>>, e: (Seq<char>, Option<Seq<char>>)) -> ParseState {
    ParseState {
        key: e.0,
        value: match e.1 {
            Some(v) => v,
            None => Seq::empty(),
        },
        in_value: e.1 is Some,
        in_quotes: false,
        found: m,
    }
}

proof fn lemma_read_key(m: Map<Seq<char>, Option<Seq<char>>>, k: Seq<char>)
    requires
        forall|i: int| 0 <= i < k.len() ==> #[trigger] k[i] != ',' && k[i] != '=' && k[i] != '"',
    ensures
        run_from(between(m), k) == (ParseState { key: k, ..between(m) }),
    decreases k.len(),
{
    if k.len() > 0 {
        lemma_read_key(m, k.drop_last());
        assert(k.drop_last().push(k.last()) =~= k);
    } else {
        assert(k =~= Seq::<char>::empty());
    }
}

proof fn lemma_read_quoted(st: ParseState, v: Seq<char>)
    requires
        st.in_value,
        st.in_quotes,
        st.value.len() == 0,
        forall|i: int| 0 <= i < v.len() ==> #[trigger] v[i] != '"',
    ensures
        run_from(st, v) == (ParseState { value: v, ..st }),
    decreases v.len(),
{
    if v.len() > 0 {
        lemma_read_quoted(st, v.drop_last());
        assert(v.drop_last().push(v.last()) =~= v);
    } else {
        assert(v =~= Seq::<char>::empty());
        assert(st.value =~= v);
    }
}

proof fn lemma_read_entry(m: Map<Seq<char>, Option<Seq<char>>>, e: (Seq<char>, Option<Seq<char>>))
    requires
        legal_entry(e),
    ensures
        run_from(between(m), entry_text(e)) == after_entry(m, e),
{
    lemma_read_key(m, e.0);
    match e.1 {
        Some(v) => {
            let k = e.0;
            let st_k = ParseState { key: k, ..between(m) };
            lemma_run_from_concat(between(m), k, "=\""@ + v + "\""@);
            assert(k + "=\""@ + v + "\""@ =~= k + ("=\""@ + v + "\""@));
            reveal_strlit("=\"");
            reveal_strlit("\"");
            let eq = seq!['=', '"'];
            assert("=\""@ =~= eq);
            lemma_run_from_concat(st_k, eq, v + "\""@);
            assert("=\""@ + v + "\""@ =~= eq + (v + "\""@));
            assert(eq.drop_last() =~= seq!['=']);
            assert(seq!['='].drop_last() =~= Seq::<char>::empty());
            let st_open = run_from(st_k, eq);
            assert(run_from(st_k, Seq::<char>::empty()) == st_k);
            assert(run_from(st_k, seq!['=']) == step(st_k, '='));
            assert(run_from(st_k, eq) == step(run_from(st_k, seq!['=']), '"'));
            assert(st_open == ParseState { in_value: true, in_quotes: true, value: Seq::empty(), ..st_k });
            lemma_run_from_concat(st_open, v, "\""@);
            lemma_read_quoted(st_open, v);
            assert("\""@ =~= seq!['"']);
            assert(seq!['"'].drop_last() =~= Seq::<char>::empty());
            let st_v = run_from(st_open, v);
            assert(run_from(st_v, Seq::<char>::empty()) == st_v);
            assert(run_from(st_v, seq!['"']) == step(st_v, '"'));
        },
        None => {},
    }
}

proof fn lemma_flush_entry(m: Map<Seq<char>, Option<Seq<char>>>, e: (Seq<char>, Option<Seq<char>>))
    requires
        legal_entry(e),
    ensures
        flush(after_entry(m, e)) == m.insert(e.0, e.1),
{
}

proof fn lemma_legal_prefix(es: Seq<(Seq<char>, Option<Seq<char>>)>)
    requires
        legal(es),
        es.len() > 0,
    ensures
        legal(es.drop_last()),
        legal_entry(es.last()),
{
    assert forall|i: int| 0 <= i < es.drop_last().len() implies legal_entry(#[trigger] es.drop_last()[i]) by {
        assert(es.drop_last()[i] == es[i]);
    }
    assert(es.last() == es[es.len() - 1]);
}

proof fn lemma_run_serialized(es: Seq<(Seq<char>, Option<Seq<char>>)>)
    requires
        legal(es),
        es.len() > 0,
    ensures
        run(serialized(es)) == after_entry(map_of(es.drop_last()), es.last()),
    decreases es.len(),
{
    lemma_legal_prefix(es);
    if es.len() == 1 {
        assert(es.drop_last() =~= Seq::<(Seq<char>, Option<Seq<char>>)>::empty());
        assert(es.last() == es[0]);
        lemma_run_is_run_from(entry_text(es[0]));
        assert(start_state() == between(Map::empty()));
        lemma_read_entry(Map::empty(), es[0]);
    } else {
        let init = es.drop_last();
        lemma_run_serialized(init);
        lemma_legal_prefix(init);
        let prev = serialized(init);
        lemma_run_is_run_from(serialized(es));
        lemma_run_is_run_from(prev);
        assert(serialized(es) == prev + ","@ + entry_text(es.last()));
        reveal_strlit(",");
        assert(","@ =~= seq![',']);
        assert(prev + ","@ + entry_text(es.last()) =~= (prev + seq![',']) + entry_text(es.last()));
        lemma_run_from_concat(start_state(), prev + seq![','], entry_text(es.last()));
        lemma_run_from_concat(start_state(), prev, seq![',']);
        assert(seq![','].drop_last() =~= Seq::<char>::empty());
        let st = run_from(start_state(), prev);
        lemma_flush_entry(map_of(init.drop_last()), init.last());
        assert(run_from(st, Seq::<char>::empty()) == st);
        assert(run_from(st, seq![',']) == step(st, ','));
        assert(flush(st) == map_of(init));
        assert(run_from(st, seq![',']) == between(map_of(init)));
        lemma_read_entry(map_of(init), es.last());
    }
}

/// Writing a legal list of annotations and parsing the text gives back exactly the map the
/// list makes; so parsing and writing again changes nothing.
pub proof fn lemma_round_trip(es: Seq<(Seq<char>, Option<Seq<char>>)>)
    requires
        legal(es),
    ensures
        parse(serialized(es)) == map_of(es),
{
    if es.len() == 0 {
        assert(serialized(es) =~= Seq::<char>::empty());
        assert(parse(serialized(es)) =~= map_of(es));
    } else {
        lemma_run_serialized(es);
        lemma_legal_prefix(es);
        lemma_flush_entry(map_of(es.drop_last()), es.last());
    }
}

impl Annotations {
    /// The entries in insertion order.
    pub closed spec fn entries(&self) -> Seq<(Seq<char>, Option<Seq<char>>)> {
        self.entries.deep_view()
    }

    /// The annotation string of this set: entries in insertion order, separated by commas,
    /// each a bare key or a key with its value in double quotes.
    pub fn to_annotation_string(&self) -> (r: String)
        ensures
            r@ == serialized(self.entries()),
            self.wf() && plain_map(self@) ==> parse(r@) == self@,
    {
        proof {
            if self.wf() && plain_map(self@) {
                lemma_entries_legal(self.entries());
                lemma_round_trip(self.entries());
                lemma_map_of_distinct(self.entries());
                assert(map_of(self.entries()) =~= self@);
            }
        }
        let ghost es = self.entries();
        let mut out: Vec<char> = Vec::new();
        let mut i: usize = 0;
        assert(es.subrange(0, 0) =~= Seq::<(Seq<char>, Option<Seq<char>>)>::empty());
        while i < self.entries.len()
            invariant
                i <= es.len(),
                es == self.entries(),
                out@ == serialized(es.subrange(0, i as int)),
            decreases es.len() - i,
        {
            let ghost sub = es.subrange(0, i + 1);
            assert(sub.drop_last() =~= es.subrange(0, i as int));
            if i > 0 {
                push_str(&mut out, ",");
            } else {
                assert(sub.len() == 1);
            }
            let ghost before = out@;
            push_str(&mut out, self.entries[i].0.as_str());
            match &self.entries[i].1 {
                Some(v) => {
                    push_str(&mut out, "=\"");
                    push_str(&mut out, v.as_str());
                    push_str(&mut out, "\"");
                },
                None => {},
            }
            assert(out@ =~= before + entry_text(es[i as int]));
            i = i + 1;
            assert(out@ =~= serialized(es.subrange(0, i as int)));
        }
        assert(es.subrange(0, es.len() as int) =~= es);
        string_of(&out)
    }
}


impl Annotations {
    /// A copy of this annotation set.
    pub fn clone_annotations(&self) -> (r: Annotations)
        ensures
            r@ == self@,
            r.wf() == self.wf(),
            r.entries() == self.entries(),
    {
        let mut out: Vec<(String, Option<String>)> = Vec::new();
        let mut i: usize = 0;
        while i < self.entries.len()
            invariant
                i <= self.entries@.len(),
                out.deep_view() =~= self.entries.deep_view().subrange(0, i as int),
            decreases self.entries.len() - i,
        {
            let ghost before = out.deep_view();
            let k = self.entries[i].0.clone();
            let v = match &self.entries[i].1 {
                Some(x) => Some(x.clone()),
                None => None,
            };
            out.push((k, v));
            assert(out.deep_view() =~= before.push(self.entries.deep_view()[i as int]));
            i = i + 1;
        }
        let r = Annotations { entries: out };
        assert(r.entries() =~= self.entries());
        assert(r@ =~= self@);
        r
    }
}


/// Every key of `m` and every value it holds read back as themselves once written.
pub open spec fn plain_map(m: Map<Seq<char>, Option<Seq<char>>>) -> bool {
    forall|k: Seq<char>| #[trigger] m.contains_key(k) ==> legal_entry((k, m[k]))
}

proof fn lemma_lookup_distinct(es: Seq<(Seq<char>, Option<Seq<char>>)>, i: int)
    requires
        distinct_keys(es),
        0 <= i < es.len(),
    ensures
        lookup(es, es[i].0) == Some(es[i].1),
{
    assert forall|j: int| 0 <= j < i implies es[j].0 != es[i].0 by {}
    lemma_lookup_at(es, es[i].0, i);
}

proof fn lemma_entries_legal(es: Seq<(Seq<char>, Option<Seq<char>>)>)
    requires
        distinct_keys(es),
        plain_map(Map::new(|k: Seq<char>| lookup(es, k) is Some, |k: Seq<char>| lookup(es, k)->0)),
    ensures
        legal(es),
{
    let m = Map::new(|k: Seq<char>| lookup(es, k) is Some, |k: Seq<char>| lookup(es, k)->0);
    assert forall|i: int| 0 <= i < es.len() implies legal_entry(#[trigger] es[i]) by {
        lemma_lookup_distinct(es, i);
        assert(m.contains_key(es[i].0));
        assert(m[es[i].0] == es[i].1);
        assert((es[i].0, es[i].1) == es[i]);
    }
}

/// With distinct keys, the map of a list is what looking each key up gives.
proof fn lemma_map_of_distinct(es: Seq<(Seq<char>, Option<Seq<char>>)>)
    requires
        distinct_keys(es),
    ensures
        map_of(es) =~= Map::new(|k: Seq<char>| lookup(es, k) is Some, |k: Seq<char>| lookup(es, k)->0),
    decreases es.len(),
{
    let m = Map::new(|k: Seq<char>| lookup(es, k) is Some, |k: Seq<char>| lookup(es, k)->0);
    if es.len() == 0 {
        assert(map_of(es) =~= m);
    } else {
        let init = es.drop_last();
        assert(distinct_keys(init)) by {
            assert forall|i: int, j: int| 0 <= i < j < init.len() implies #[trigger] init[i].0 != #[trigger] init[j].0 by {
                assert(init[i] == es[i] && init[j] == es[j]);
            }
        }
        lemma_map_of_distinct(init);
        assert(es =~= init.push(es.last()));
        let mi = Map::new(|k: Seq<char>| lookup(init, k) is Some, |k: Seq<char>| lookup(init, k)->0);
        assert forall|k: Seq<char>| k != es.last().0 implies lookup(es, k) == lookup(init, k) by {
            lemma_lookup_push(init, es.last(), k);
        }
        assert forall|j: int| 0 <= j < init.len() implies init[j].0 != es.last().0 by {
            assert(init[j] == es[j]);
            assert(es.last() == es[es.len() - 1]);
        }
        lemma_lookup_none(init, es.last().0);
        lemma_lookup_distinct(es, es.len() - 1);
        assert(map_of(es) =~= m);
    }
}

/// Writing a parsed annotation set whose keys and values read back as themselves, and parsing
/// the text again, gives the same set; so for a text written by `serialized` from a legal
/// list, parsing, writing and parsing again changes nothing.
pub proof fn lemma_parse_write_parse(es: Seq<(Seq<char>, Option<Seq<char>>)>)
    requires
        legal(es),
    ensures
        plain_map(parse(serialized(es))),
        parse(serialized(es)) == map_of(es),
{
    lemma_round_trip(es);
    lemma_map_of_legal(es);
}

proof fn lemma_map_of_legal(es: Seq<(Seq<char>, Option<Seq<char>>)>)
    requires
        legal(es),
    ensures
        plain_map(map_of(es)),
    decreases es.len(),
{
    if es.len() > 0 {
        lemma_legal_prefix(es);
        lemma_map_of_legal(es.drop_last());
    }
}

} // verus!
