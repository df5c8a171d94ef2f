use vstd::prelude::*;

verus! {

/// A recorded attribute as a pair of character sequences: (name, value).
pub type Attr = (Seq<char>, Seq<char>);

/// A named attribute whose value has already been rendered as text.
#[derive(Debug, Clone, PartialEq, Eq)]
pub struct FieldPair {
    pub name: String,
    pub value: String,
}

impl View for FieldPair {
    type V = Attr;

    open spec fn view(&self) -> Attr {
        (self.name@, self.value@)
    }
}

/// The attributes a scope carried when it was created.
#[derive(Debug, Clone)]
pub struct FieldStore {
    pub fields: Vec<FieldPair>,
}

pub open spec fn attrs_of(v: Seq<FieldPair>) -> Seq<Attr> {
    v.map_values(|p: FieldPair| p@)
}

/// Strict lexicographic order on character sequences, by code point,
/// starting at position `i`.
pub open spec fn lex_lt_from(a: Seq<char>, b: Seq<char>, i: nat) -> bool
    decreases a.len() - i,
{
    if i >= a.len() {
        i < b.len()
    } else if i >= b.len() {
        false
    } else if a[i as int] != b[i as int] {
        (a[i as int] as u32) < (b[i as int] as u32)
    } else {
        lex_lt_from(a, b, i + 1)
    }
}

/// Strict lexicographic order on names; it is the order of `str::cmp`.
pub open spec fn lex_lt(a: Seq<char>, b: Seq<char>) -> bool {
    lex_lt_from(a, b, 0)
}

/// `a` sorts no later than `b`.
pub open spec fn name_le(a: Seq<char>, b: Seq<char>) -> bool {
    !lex_lt(b, a)
}

proof fn lemma_lex_lt_from_asymmetric(a: Seq<char>, b: Seq<char>, i: nat)
    ensures
        lex_lt_from(a, b, i) ==> !lex_lt_from(b, a, i),
    decreases a.len() - i,
{
    if i < a.len() && i < b.len() && a[i as int] == b[i as int] {
        lemma_lex_lt_from_asymmetric(a, b, i + 1);
    }
}

/// `lex_lt` is asymmetric, so `name_le` is total.
pub proof fn lemma_lex_lt_asymmetric(a: Seq<char>, b: Seq<char>)
    ensures
        lex_lt(a, b) ==> !lex_lt(b, a),
        name_le(a, b) || name_le(b, a),
{
    lemma_lex_lt_from_asymmetric(a, b, 0);
}

/// Whether the name `a` sorts strictly before the name `b`.
pub fn name_lt(a: &str, b: &str) -> (r: bool)
    ensures
        r == lex_lt(a@, b@),
{
    let la = a.unicode_len();
    let lb = b.unicode_len();
    let mut i: usize = 0;
    while i < la && i < lb
        invariant
            la == a@.len(),
            lb == b@.len(),
            i <= la,
            i <= lb,
            lex_lt(a@, b@) == lex_lt_from(a@, b@, i as nat),
        decreases la - i,
    {
        let ca = a.get_char(i);
        let cb = b.get_char(i);
        if ca != cb {
            return (ca as u32) < (cb as u32);
        }
        i = i + 1;
    }
    i < lb && i >= la
}

/// Index of the first attribute in `s`, from position `i` on, whose name is
/// `name`; -1 when there is none.
pub open spec fn find_name(s: Seq<Attr>, name: Seq<char>, i: nat) -> int
    decreases s.len() - i,
{
    if i >= s.len() {
        -1
    } else if s[i as int].0 == name {
        i as int
    } else {
        find_name(s, name, i + 1)
    }
}

/// One recording call: a name seen before takes the new value in place, a
/// new name is appended.
pub open spec fn record_one(s: Seq<Attr>, a: Attr) -> Seq<Attr> {
    let k = find_name(s, a.0, 0);
    if k < 0 {
        s.push(a)
    } else {
        s.update(k, a)
    }
}

/// The attributes that a sequence of recording calls leaves: one entry per
/// distinct name, in order of first recording, holding the last value.
pub open spec fn recorded_fields(calls: Seq<Attr>) -> Seq<Attr>
    decreases calls.len(),
{
    if calls.len() == 0 {
        Seq::empty()
    } else {
        record_one(recorded_fields(calls.drop_last()), calls.last())
    }
}

/// No name occurs twice.
pub open spec fn names_unique(s: Seq<Attr>) -> bool {
    forall|i: int, j: int| 0 <= i < j < s.len() ==> s[i].0 != s[j].0
}

proof fn lemma_find_name(s: Seq<Attr>, name: Seq<char>, i: nat)
    requires
        i <= s.len(),
    ensures
        find_name(s, name, i) == -1 || (i <= find_name(s, name, i) < s.len()
            && s[find_name(s, name, i)].0 == name),
        find_name(s, name, i) == -1 ==> forall|j: int| i <= j < s.len() ==> s[j].0 != name,
    decreases s.len() - i,
{
    if i < s.len() && s[i as int].0 != name {
        lemma_find_name(s, name, i + 1);
    }
}

/// The result of `recorded_fields` never repeats a name.
pub proof fn lemma_recorded_fields_unique(calls: Seq<Attr>)
    ensures
        names_unique(recorded_fields(calls)),
    decreases calls.len(),
{
    if calls.len() > 0 {
        let prev = recorded_fields(calls.drop_last());
        lemma_recorded_fields_unique(calls.drop_last());
        lemma_find_name(prev, calls.last().0, 0);
    }
}

impl FieldPair {
    /// A copy of this pair.
    pub fn copy_pair(&self) -> (r: FieldPair)
        ensures
            r@ == self@,
    {
        FieldPair { name: self.name.clone(), value: self.value.clone() }
    }
}

/// Position of the first pair in `fields` named `name`, if any.
fn find_field(fields: &Vec<FieldPair>, name: &String) -> (r: Option<usize>)
    ensures
        match r {
            Some(k) => find_name(attrs_of(fields@), name@, 0) == k as int,
            None => find_name(attrs_of(fields@), name@, 0) == -1,
        },
{
    let ghost s = attrs_of(fields@);
    let mut j: usize = 0;
    while j < fields.len()
        invariant
            s == attrs_of(fields@),
            j <= fields@.len(),
            find_name(s, name@, 0) == find_name(s, name@, j as nat),
        decreases fields@.len() - j,
    {
        if fields[j].name == *name {
            return Some(j);
        }
        j = j + 1;
    }
    None
}

/// Applies one recording call to `fields`.
fn record_into(fields: &mut Vec<FieldPair>, pair: FieldPair)
    ensures
        attrs_of(final(fields)@) == record_one(attrs_of(old(fields)@), pair@),
{
    let ghost s = attrs_of(fields@);
    let ghost a = pair@;
    proof {
        lemma_find_name(s, a.0, 0);
    }
    match find_field(fields, &pair.name) {
        Some(k) => {
            fields.set(k, pair);
            proof {
                assert(attrs_of(fields@) =~= s.update(k as int, a));
            }
        },
        None => {
            fields.push(pair);
            proof {
                assert(attrs_of(fields@) =~= s.push(a));
            }
        },
    }
}

/// Builds the attributes of one notification from its recording calls, in
/// the order the calls were made.
fn record_fields(recorded: Vec<FieldPair>) -> (r: Vec<FieldPair>)
    ensures
        attrs_of(r@) == recorded_fields(attrs_of(recorded@)),
        names_unique(attrs_of(r@)),
{
    let ghost calls = attrs_of(recorded@);
    let mut out: Vec<FieldPair> = Vec::new();
    let mut i: usize = 0;
    while i < recorded.len()
        invariant
            calls == attrs_of(recorded@),
            i <= recorded@.len(),
            attrs_of(out@) == recorded_fields(calls.subrange(0, i as int)),
        decreases recorded@.len() - i,
    {
        let pair = recorded[i].copy_pair();
        proof {
            assert(calls.subrange(0, i + 1).drop_last() =~= calls.subrange(0, i as int));
        }
        record_into(&mut out, pair);
        i = i + 1;
    }
    proof {
        assert(calls.subrange(0, i as int) =~= calls);
        lemma_recorded_fields_unique(calls);
    }
    out
}

/// The attributes attached to a newly created scope, from the recording
/// calls made for it: one per distinct name, the last value winning.
pub fn from_attributes(recorded: Vec<FieldPair>) -> (r: Vec<FieldPair>)
    ensures
        attrs_of(r@) == recorded_fields(attrs_of(recorded@)),
        names_unique(attrs_of(r@)),
{
    record_fields(recorded)
}

/// The attributes of a log event, from the recording calls made for it: one
/// per distinct name, the last value winning.
pub fn from_event(recorded: Vec<FieldPair>) -> (r: Vec<FieldPair>)
    ensures
        attrs_of(r@) == recorded_fields(attrs_of(recorded@)),
        names_unique(attrs_of(r@)),
{
    record_fields(recorded)
}

/// The stored attributes of a chain of scopes, outermost scope first, each
/// store in its own order.
pub open spec fn chain_fields(chain: Seq<FieldStore>) -> Seq<Attr>
    decreases chain.len(),
{
    if chain.len() == 0 {
        Seq::empty()
    } else {
        chain_fields(chain.drop_last()) + attrs_of(chain.last().fields@)
    }
}

impl FieldStore {
    /// Attaches a store holding `fields` to an empty slot; a slot that
    /// already holds a store keeps it.
    pub fn create_if_absent(slot: &mut Option<FieldStore>, fields: Vec<FieldPair>)
        ensures
            *old(slot) is Some ==> *final(slot) == *old(slot),
            *old(slot) is None ==> *final(slot) == Some(FieldStore { fields }),
    {
        if slot.is_none() {
            *slot = Some(FieldStore { fields });
        }
    }
}

/// Appends copies of `src` to `dst`.
fn append_copies(dst: &mut Vec<FieldPair>, src: &Vec<FieldPair>)
    ensures
        attrs_of(final(dst)@) == attrs_of(old(dst)@) + attrs_of(src@),
{
    let ghost start = attrs_of(dst@);
    let mut i: usize = 0;
    while i < src.len()
        invariant
            i <= src@.len(),
            attrs_of(dst@) == start + attrs_of(src@).subrange(0, i as int),
        decreases src@.len() - i,
    {
        let ghost before = dst@;
        let p = src[i].copy_pair();
        dst.push(p);
        proof {
            assert(dst@ == before.push(p));
            assert(attrs_of(dst@) =~= attrs_of(before).push(p@));
            assert(attrs_of(src@).subrange(0, i + 1) =~= attrs_of(src@).subrange(0, i as int).push(p@));
            assert(attrs_of(dst@) =~= start + attrs_of(src@).subrange(0, i + 1));
        }
        i = i + 1;
    }
    proof {
        assert(attrs_of(src@).subrange(0, i as int) =~= attrs_of(src@));
    }
}

/// The attributes of every scope in `chain` (outermost first), concatenated.
pub fn from_spans(chain: &Vec<FieldStore>) -> (r: Vec<FieldPair>)
    ensures
        attrs_of(r@) == chain_fields(chain@),
{
    let mut out: Vec<FieldPair> = Vec::new();
    let mut i: usize = 0;
    while i < chain.len()
        invariant
            i <= chain@.len(),
            attrs_of(out@) == chain_fields(chain@.subrange(0, i as int)),
        decreases chain@.len() - i,
    {
        proof {
            assert(chain@.subrange(0, i + 1).drop_last() =~= chain@.subrange(0, i as int));
        }
        append_copies(&mut out, &chain[i].fields);
        i = i + 1;
    }
    proof {
        assert(chain@.subrange(0, i as int) =~= chain@);
    }
    out
}

} // verus!
