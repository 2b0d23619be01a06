use vstd::prelude::*;

use crate::error::Error;
use crate::events::{opt_str_view, Name, NameV};
use crate::tag::{parse_tag, parse_tag_spec};

verus! {

/// Mathematical image of one field descriptor.
pub struct FieldV {
    pub name: Seq<char>,
    pub namespace: Option<Seq<char>>,
    pub local: Seq<char>,
    pub attr: bool,
}

/// One declared field of a record: the declared name with any `$attr:`
/// marker stripped, the qualified name parsed from it, and whether the
/// field binds to an attribute rather than a child element.
#[derive(Debug, PartialEq)]
pub struct Field {
    pub name: String,
    pub namespace: Option<String>,
    pub local: String,
    pub attr: bool,
}

impl View for Field {
    type V = FieldV;

    open spec fn view(&self) -> FieldV {
        FieldV {
            name: self.name@,
            namespace: opt_str_view(self.namespace),
            local: self.local@,
            attr: self.attr,
        }
    }
}

/// Whether the declared name carries the attribute marker `$attr:`.
pub open spec fn is_attr_decl(s: Seq<char>) -> bool {
    s.len() >= 6 && s.subrange(0, 6) == "$attr:"@
}

/// Whether the declared name is a value sink: `$value` or `$valueN`.
pub open spec fn is_value_decl(s: Seq<char>) -> bool {
    s.len() >= 6 && s.subrange(0, 6) == "$value"@
}

/// The meaning of one declared field name.
pub open spec fn field_spec(decl: Seq<char>) -> Option<FieldV> {
    let inner = if is_attr_decl(decl) {
        decl.skip(6)
    } else {
        decl
    };
    match parse_tag_spec(inner) {
        Some(t) => Some(FieldV { name: inner, namespace: t.0, local: t.2, attr: is_attr_decl(decl) }),
        None => None,
    }
}

/// True iff `s` begins with the six characters of `p`; `p` is expected
/// to have exactly six characters.
fn starts_with6(s: &str, p: &str) -> (r: bool)
    requires
        p@.len() == 6,
    ensures
        r == (s@.len() >= 6 && s@.subrange(0, 6) == p@),
{
    let n = s.unicode_len();
    if n < 6 {
        false
    } else {
        let head = s.substring_char(0, 6).to_owned();
        let pp = p.to_owned();
        head.eq(&pp)
    }
}

impl Field {
    /// Parses one declared field name, per `field_spec`.
    pub fn from_declared(decl: &str) -> (r: Result<Field, Error>)
        ensures
            match r {
                Ok(f) => field_spec(decl@) == Some(f@),
                Err(e) => field_spec(decl@) is None && e is Custom,
            },
    {
        proof {
            reveal_strlit("$attr:");
        }
        let attr = starts_with6(decl, "$attr:");
        let n = decl.unicode_len();
        let inner = if attr {
            decl.substring_char(6, n)
        } else {
            decl
        };
        proof {
            if attr {
                assert(inner@ =~= decl@.skip(6));
            }
        }
        match parse_tag(inner) {
            Ok(t) => Ok(
                Field {
                    name: inner.to_owned(),
                    namespace: t.namespace,
                    local: t.local,
                    attr,
                },
            ),
            Err(e) => Err(e),
        }
    }

    /// A structural copy with the same view.
    pub fn dup(&self) -> (r: Field)
        ensures
            r@ == self@,
    {
        Field {
            name: self.name.clone(),
            namespace: crate::events::clone_opt_string(&self.namespace),
            local: self.local.clone(),
            attr: self.attr,
        }
    }
}

/// The decimal digit character for `d` (0 through 9).
pub open spec fn digit_char(d: nat) -> char {
    if d == 0 {
        '0'
    } else if d == 1 {
        '1'
    } else if d == 2 {
        '2'
    } else if d == 3 {
        '3'
    } else if d == 4 {
        '4'
    } else if d == 5 {
        '5'
    } else if d == 6 {
        '6'
    } else if d == 7 {
        '7'
    } else if d == 8 {
        '8'
    } else {
        '9'
    }
}

/// The decimal notation of `n`, most significant digit first.
pub open spec fn dec_of(n: nat) -> Seq<char>
    decreases n,
{
    if n < 10 {
        seq![digit_char(n)]
    } else {
        dec_of(n / 10).push(digit_char(n % 10))
    }
}

fn digit_str(d: u64) -> (r: &'static str)
    requires
        d < 10,
    ensures
        r@ =~= seq![digit_char(d as nat)],
{
    proof {
        reveal_strlit("0");
        reveal_strlit("1");
        reveal_strlit("2");
        reveal_strlit("3");
        reveal_strlit("4");
        reveal_strlit("5");
        reveal_strlit("6");
        reveal_strlit("7");
        reveal_strlit("8");
        reveal_strlit("9");
    }
    match d {
        0 => "0",
        1 => "1",
        2 => "2",
        3 => "3",
        4 => "4",
        5 => "5",
        6 => "6",
        7 => "7",
        8 => "8",
        _ => "9",
    }
}

/// Writes `n` in decimal.
pub fn u64_to_dec(n: u64) -> (r: String)
    ensures
        r@ == dec_of(n as nat),
    decreases n,
{
    if n < 10 {
        digit_str(n).to_owned()
    } else {
        let mut s = u64_to_dec(n / 10);
        s.append(digit_str(n % 10));
        proof {
            assert(s@ =~= dec_of((n / 10) as nat).push(digit_char((n % 10) as nat)));
        }
        s
    }
}

/// The synthetic name under which an undeclared element or attribute is
/// exposed: `{URI}local`, or `local` when it has no namespace.
pub open spec fn synth_name(n: NameV) -> Seq<char> {
    match n.namespace {
        Some(u) => "{"@ + u + "}"@ + n.local,
        None => n.local,
    }
}

fn synth_name_exec(name: &Name) -> (r: String)
    ensures
        r@ == synth_name(name@),
{
    match &name.namespace {
        Some(u) => {
            let mut s = String::from_str("{");
            s.append(u.as_str());
            s.append("}");
            s.append(name.local.as_str());
            s
        },
        None => name.local.clone(),
    }
}

/// Whether a declared name binds to an attribute: it begins with
/// `$attr:`.
pub fn starts_with_attr(s: &str) -> (r: bool)
    ensures
        r == is_attr_decl(s@),
{
    proof {
        reveal_strlit("$attr:");
    }
    starts_with6(s, "$attr:")
}

/// Whether a name is a value sink: it begins with `$value`.
pub fn starts_with_value(s: &str) -> (r: bool)
    ensures
        r == is_value_decl(s@),
{
    proof {
        reveal_strlit("$value");
    }
    starts_with6(s, "$value")
}

/// Compares two optional strings by content.
pub fn opt_str_eq(a: &Option<String>, b: &Option<String>) -> (r: bool)
    ensures
        r == (opt_str_view(*a) == opt_str_view(*b)),
{
    match (a, b) {
        (Some(x), Some(y)) => x.eq(y),
        (None, None) => true,
        _ => false,
    }
}

/// Mathematical image of a field table.
pub struct FieldTableV {
    pub fields: Seq<FieldV>,
    pub num_value: nat,
    pub value_used: nat,
}

/// The table built for one record type: every declared field parsed,
/// the number of value sinks among the declared names, and how many of
/// those sinks have been handed out so far.
#[derive(Debug, PartialEq)]
pub struct FieldTable {
    pub fields: Vec<Field>,
    pub num_value: u64,
    pub value_used: u64,
}

impl View for FieldTable {
    type V = FieldTableV;

    open spec fn view(&self) -> FieldTableV {
        FieldTableV {
            fields: self.fields@.map_values(|f: Field| f@),
            num_value: self.num_value as nat,
            value_used: self.value_used as nat,
        }
    }
}

pub open spec fn decl_views(decls: Seq<String>) -> Seq<Seq<char>> {
    decls.map_values(|s: String| s@)
}

/// How many of the declared names are value sinks.
pub open spec fn count_value(decls: Seq<Seq<char>>) -> nat
    decreases decls.len(),
{
    if decls.len() == 0 {
        0
    } else {
        count_value(decls.drop_last()) + if is_value_decl(decls.last()) {
            1nat
        } else {
            0nat
        }
    }
}

/// The meaning of a whole declared field list: `None` when some name is
/// malformed, else the parsed fields and the count of value sinks, with
/// no sink yet handed out.
pub open spec fn table_spec(decls: Seq<Seq<char>>) -> Option<FieldTableV> {
    if forall|i: int| 0 <= i < decls.len() ==> field_spec(decls[i]) is Some {
        Some(
            FieldTableV {
                fields: Seq::new(decls.len(), |i: int| field_spec(decls[i]).unwrap()),
                num_value: count_value(decls),
                value_used: 0,
            },
        )
    } else {
        None
    }
}

impl FieldTable {
    /// Builds the table for a declared field list, per `table_spec`.
    pub fn build(decls: &Vec<String>) -> (r: Result<FieldTable, Error>)
        ensures
            match r {
                Ok(t) => table_spec(decl_views(decls@)) == Some(t@),
                Err(e) => table_spec(decl_views(decls@)) is None && e is Custom,
            },
    {
        let ghost dv = decl_views(decls@);
        let mut fields: Vec<Field> = Vec::new();
        let mut num_value: u64 = 0;
        let mut i: usize = 0;
        while i < decls.len()
            invariant
                dv == decl_views(decls@),
                dv.len() == decls@.len(),
                0 <= i <= decls.len(),
                fields@.len() == i as int,
                forall|k: int| 0 <= k < i ==> field_spec(dv[k]) == Some(fields@.map_values(|f: Field| f@)[k]),
                num_value as nat == count_value(dv.take(i as int)),
                num_value <= i,
            decreases decls.len() - i,
        {
            let d = &decls[i];
            proof {
                reveal_strlit("$value");
                assert(dv[i as int] == d@);
            }
            match Field::from_declared(d.as_str()) {
                Ok(f) => {
                    fields.push(f);
                },
                Err(e) => {
                    proof {
                        assert(field_spec(dv[i as int]) is None);
                        assert(!(forall|k: int|
                            0 <= k < dv.len() ==> field_spec(dv[k]) is Some)) by {
                            assert(field_spec(dv[i as int]) is None);
                        }
                    }
                    return Err(e);
                },
            }
            if starts_with6(d.as_str(), "$value") {
                num_value = num_value + 1;
            }
            proof {
                assert(dv.take(i as int + 1).drop_last() =~= dv.take(i as int));
                assert(dv.take(i as int + 1).last() == dv[i as int]);
            }
            i = i + 1;
        }
        proof {
            assert(dv.take(dv.len() as int) =~= dv);
        }
        let t = FieldTable { fields, num_value, value_used: 0 };
        proof {
            assert(t@.fields =~= Seq::new(dv.len(), |k: int| field_spec(dv[k]).unwrap()));
        }
        Ok(t)
    }

    /// A structural copy with the same view.
    pub fn dup(&self) -> (r: FieldTable)
        ensures
            r@ == self@,
    {
        let mut fields: Vec<Field> = Vec::new();
        let mut i: usize = 0;
        while i < self.fields.len()
            invariant
                0 <= i <= self.fields.len(),
                fields@.len() == i as int,
                forall|k: int| 0 <= k < i ==> (#[trigger] fields@[k])@ == self.fields@[k]@,
            decreases self.fields.len() - i,
        {
            fields.push(self.fields[i].dup());
            i = i + 1;
        }
        let r = FieldTable { fields, num_value: self.num_value, value_used: self.value_used };
        proof {
            assert(r@.fields =~= self@.fields);
        }
        r
    }
}

/// `f` declares the element name `key` (a non-attribute field with the
/// same namespace and local part).
pub open spec fn is_elem_match(f: FieldV, key: (Option<Seq<char>>, Seq<char>)) -> bool {
    !f.attr && f.namespace == key.0 && f.local == key.1
}

/// `f` declares the attribute name `key`.
pub open spec fn is_attr_match(f: FieldV, key: (Option<Seq<char>>, Seq<char>)) -> bool {
    f.attr && f.namespace == key.0 && f.local == key.1
}

pub open spec fn has_elem_match(fields: Seq<FieldV>, key: (Option<Seq<char>>, Seq<char>)) -> bool {
    exists|i: int| 0 <= i < fields.len() && is_elem_match(fields[i], key)
}

pub open spec fn has_attr_match(fields: Seq<FieldV>, key: (Option<Seq<char>>, Seq<char>)) -> bool {
    exists|i: int| 0 <= i < fields.len() && is_attr_match(fields[i], key)
}

/// `i` is the first index of `fields` that declares the element `key`.
pub open spec fn first_elem_match(
    fields: Seq<FieldV>,
    key: (Option<Seq<char>>, Seq<char>),
    i: int,
) -> bool {
    &&& 0 <= i < fields.len()
    &&& is_elem_match(fields[i], key)
    &&& forall|k: int| 0 <= k < i ==> !is_elem_match(fields[k], key)
}

/// `i` is the first index of `fields` that declares the attribute `key`.
pub open spec fn first_attr_match(
    fields: Seq<FieldV>,
    key: (Option<Seq<char>>, Seq<char>),
    i: int,
) -> bool {
    &&& 0 <= i < fields.len()
    &&& is_attr_match(fields[i], key)
    &&& forall|k: int| 0 <= k < i ==> !is_attr_match(fields[k], key)
}

/// The name handed out for the `k`-th value sink (1-based) of a record
/// that declares `num` sinks in all: `$value` when there is exactly one
/// sink, else `$valueK`.
pub open spec fn sink_name(k: nat, num: nat) -> Seq<char> {
    if num == 1 {
        "$value"@
    } else {
        "$value"@ + dec_of(k)
    }
}

/// The name `match_element` resolves an element to, as a function of
/// the table state: the first matching non-attribute field's name, else
/// the next sink name when a sink is free, else the synthetic name.
pub open spec fn elem_key_spec(t: FieldTableV, n: NameV) -> Seq<char> {
    if has_elem_match(t.fields, n.qkey()) {
        let i = choose|i: int| first_elem_match(t.fields, n.qkey(), i);
        t.fields[i].name
    } else if t.value_used < t.num_value {
        sink_name(t.value_used + 1, t.num_value)
    } else {
        synth_name(n)
    }
}

/// How many sinks `match_element` has handed out after one resolution.
pub open spec fn elem_key_used(t: FieldTableV, n: NameV) -> nat {
    if !has_elem_match(t.fields, n.qkey()) && t.value_used < t.num_value {
        t.value_used + 1
    } else {
        t.value_used
    }
}

/// The name `match_attribute` resolves an attribute to: the first
/// matching attribute field's name, else the synthetic name, wrapped
/// as `$attr:<name>` either way.
pub open spec fn attr_key_spec(fields: Seq<FieldV>, n: NameV) -> Seq<char> {
    if has_attr_match(fields, n.qkey()) {
        let i = choose|i: int| first_attr_match(fields, n.qkey(), i);
        "$attr:"@ + fields[i].name
    } else {
        "$attr:"@ + synth_name(n)
    }
}

impl FieldTable {
    /// Resolves an element name against the declared fields: the first
    /// matching non-attribute field wins; an unmatched element is handed
    /// to the next free value sink, if one is left, and otherwise gets
    /// its synthetic name so that callers can recognize and skip it.
    pub fn match_element(&mut self, name: &Name) -> (r: String)
        ensures
            final(self)@.fields == old(self)@.fields,
            final(self)@.num_value == old(self)@.num_value,
            r@ == elem_key_spec(old(self)@, name@),
            final(self)@.value_used == elem_key_used(old(self)@, name@),
            ({
                let key = name@.qkey();
                let fv = old(self)@.fields;
                if has_elem_match(fv, key) {
                    &&& final(self)@.value_used == old(self)@.value_used
                    &&& exists|i: int| first_elem_match(fv, key, i) && r@ == fv[i].name
                } else if old(self)@.value_used < old(self)@.num_value {
                    &&& final(self)@.value_used == old(self)@.value_used + 1
                    &&& r@ == sink_name(old(self)@.value_used + 1, old(self)@.num_value)
                } else {
                    &&& final(self)@.value_used == old(self)@.value_used
                    &&& r@ == synth_name(name@)
                }
            }),
    {
        let ghost key = name@.qkey();
        let ghost fv = self@.fields;
        let mut i: usize = 0;
        while i < self.fields.len()
            invariant
                *self == *old(self),
                fv == self@.fields,
                key == name@.qkey(),
                0 <= i <= self.fields.len(),
                forall|k: int| 0 <= k < i ==> !is_elem_match(fv[k], key),
            decreases self.fields.len() - i,
        {
            let f = &self.fields[i];
            if !f.attr && opt_str_eq(&f.namespace, &name.namespace) && f.local.eq(&name.local) {
                proof {
                    assert(is_elem_match(fv[i as int], key));
                    assert(first_elem_match(fv, key, i as int));
                    let j = choose|j: int| first_elem_match(fv, key, j);
                    assert(j == i as int);
                }
                return f.name.clone();
            }
            i = i + 1;
        }
        if self.value_used < self.num_value {
            self.value_used = self.value_used + 1;
            if self.num_value == 1 {
                String::from_str("$value")
            } else {
                let mut s = String::from_str("$value");
                s.append(u64_to_dec(self.value_used).as_str());
                s
            }
        } else {
            synth_name_exec(name)
        }
    }

    /// Resolves an attribute name against the declared fields: the first
    /// matching attribute field wins, and in either case the result is
    /// wrapped as `$attr:<name>`.
    pub fn match_attribute(&self, name: &Name) -> (r: String)
        ensures
            r@ == attr_key_spec(self@.fields, name@),
    {
        let ghost key = name@.qkey();
        let ghost fv = self@.fields;
        let mut i: usize = 0;
        while i < self.fields.len()
            invariant
                fv == self@.fields,
                key == name@.qkey(),
                0 <= i <= self.fields.len(),
                forall|k: int| 0 <= k < i ==> !is_attr_match(fv[k], key),
            decreases self.fields.len() - i,
        {
            let f = &self.fields[i];
            if f.attr && opt_str_eq(&f.namespace, &name.namespace) && f.local.eq(&name.local) {
                proof {
                    assert(first_attr_match(fv, key, i as int));
                    let j = choose|j: int| first_attr_match(fv, key, j);
                    assert(j == i as int);
                }
                let mut s = String::from_str("$attr:");
                s.append(f.name.as_str());
                return s;
            }
            i = i + 1;
        }
        let mut s = String::from_str("$attr:");
        s.append(synth_name_exec(name).as_str());
        s
    }
}

/// One memoized field table, keyed by the content of the declared list.
pub struct CacheEntry {
    pub key: Vec<String>,
    pub table: FieldTable,
}

/// The interning cache for field tables. The underlying data layer
/// reuses one declared list per record type, so repeated decodes of the
/// same type find their table here instead of rebuilding it. Entries
/// are only ever appended, never evicted.
pub struct FieldTableCache {
    pub entries: Vec<CacheEntry>,
}

pub open spec fn cache_view(c: FieldTableCache) -> Seq<(Seq<Seq<char>>, FieldTableV)> {
    c.entries@.map_values(|e: CacheEntry| (decl_views(e.key@), e.table@))
}

pub open spec fn cache_contains(cv: Seq<(Seq<Seq<char>>, FieldTableV)>, l: Seq<Seq<char>>) -> bool {
    exists|i: int| 0 <= i < cv.len() && cv[i].0 == l
}

/// What one lookup leaves in the cache: nothing new when the list is
/// already interned, else one entry for it.
pub open spec fn cache_after(
    cv: Seq<(Seq<Seq<char>>, FieldTableV)>,
    l: Seq<Seq<char>>,
) -> Seq<(Seq<Seq<char>>, FieldTableV)> {
    if cache_contains(cv, l) {
        cv
    } else {
        cv.push((l, table_spec(l).unwrap()))
    }
}

/// Every interned table is the table of its key.
pub open spec fn cache_wf(cv: Seq<(Seq<Seq<char>>, FieldTableV)>) -> bool {
    forall|i: int| 0 <= i < cv.len() ==> table_spec((#[trigger] cv[i]).0) == Some(cv[i].1)
}

/// Compares two string lists by content.
fn vec_string_eq(a: &Vec<String>, b: &Vec<String>) -> (r: bool)
    ensures
        r == (decl_views(a@) == decl_views(b@)),
{
    if a.len() != b.len() {
        proof {
            assert(decl_views(a@).len() != decl_views(b@).len());
        }
        return false;
    }
    let mut i: usize = 0;
    while i < a.len()
        invariant
            a@.len() == b@.len(),
            0 <= i <= a.len(),
            forall|k: int| 0 <= k < i ==> (#[trigger] a@[k])@ == b@[k]@,
        decreases a.len() - i,
    {
        if !a[i].eq(&b[i]) {
            proof {
                assert(decl_views(a@)[i as int] != decl_views(b@)[i as int]);
            }
            return false;
        }
        i = i + 1;
    }
    proof {
        assert(decl_views(a@) =~= decl_views(b@));
    }
    true
}

fn clone_vec_string(a: &Vec<String>) -> (r: Vec<String>)
    ensures
        decl_views(r@) == decl_views(a@),
{
    let mut out: Vec<String> = Vec::new();
    let mut i: usize = 0;
    while i < a.len()
        invariant
            0 <= i <= a.len(),
            out@.len() == i as int,
            forall|k: int| 0 <= k < i ==> (#[trigger] out@[k])@ == a@[k]@,
        decreases a.len() - i,
    {
        out.push(a[i].clone());
        i = i + 1;
    }
    proof {
        assert(decl_views(out@) =~= decl_views(a@));
    }
    out
}

impl FieldTableCache {
    pub fn new() -> (r: FieldTableCache)
        ensures
            cache_view(r) == Seq::<(Seq<Seq<char>>, FieldTableV)>::empty(),
            cache_wf(cache_view(r)),
    {
        let r = FieldTableCache { entries: Vec::new() };
        proof {
            assert(cache_view(r) =~= Seq::<(Seq<Seq<char>>, FieldTableV)>::empty());
        }
        r
    }

    /// Returns the field table for a declared list, interning it on the
    /// first sight of that list. A repeated call with the same list
    /// returns a structurally identical table and appends nothing.
    pub fn for_field_list(&mut self, decls: &Vec<String>) -> (r: Result<FieldTable, Error>)
        requires
            cache_wf(cache_view(*old(self))),
        ensures
            cache_wf(cache_view(*final(self))),
            match r {
                Ok(t) => {
                    &&& table_spec(decl_views(decls@)) == Some(t@)
                    &&& cache_view(*final(self)) == cache_after(
                        cache_view(*old(self)),
                        decl_views(decls@),
                    )
                    &&& cache_contains(cache_view(*final(self)), decl_views(decls@))
                },
                Err(e) => {
                    &&& table_spec(decl_views(decls@)) is None
                    &&& e is Custom
                    &&& cache_view(*final(self)) == cache_view(*old(self))
                },
            },
    {
        let ghost l = decl_views(decls@);
        let ghost cv0 = cache_view(*self);
        let mut i: usize = 0;
        while i < self.entries.len()
            invariant
                cache_wf(cache_view(*self)),
                *self == *old(self),
                l == decl_views(decls@),
                cv0 == cache_view(*self),
                0 <= i <= self.entries.len(),
                forall|k: int| 0 <= k < i ==> (#[trigger] cache_view(*self)[k]).0 != l,
            decreases self.entries.len() - i,
        {
            if vec_string_eq(&self.entries[i].key, decls) {
                let t = self.entries[i].table.dup();
                proof {
                    assert(cache_view(*self)[i as int].0 == l);
                    assert(cache_view(*self)[i as int].1 == t@);
                    assert(cache_contains(cv0, l));
                    assert(cache_after(cv0, l) == cv0);
                }
                return Ok(t);
            }
            i = i + 1;
        }
        proof {
            assert(!cache_contains(cv0, l));
        }
        match FieldTable::build(decls) {
            Ok(t) => {
                let entry = CacheEntry { key: clone_vec_string(decls), table: t.dup() };
                self.entries.push(entry);
                proof {
                    assert(cache_view(*self) =~= cv0.push((l, t@)));
                    assert(cache_contains(cache_view(*self), l)) by {
                        assert(cache_view(*self)[cv0.len() as int].0 == l);
                    }
                }
                Ok(t)
            },
            Err(e) => Err(e),
        }
    }
}

/// Field-table stability: one declared list always yields one table.
/// The table returned for a list is determined by the list's content
/// alone, so two lookups of the same list return structurally identical
/// tables; and once a list is interned, a further lookup of it leaves
/// the cache exactly as it was.
pub proof fn lemma_field_table_stability(
    cv: Seq<(Seq<Seq<char>>, FieldTableV)>,
    l: Seq<Seq<char>>,
    t1: FieldTableV,
    t2: FieldTableV,
)
    requires
        table_spec(l) == Some(t1),
        table_spec(l) == Some(t2),
    ensures
        t1 == t2,
        cache_after(cache_after(cv, l), l) == cache_after(cv, l),
{
    if !cache_contains(cv, l) {
        assert(cache_after(cv, l)[cv.len() as int].0 == l);
        assert(cache_contains(cache_after(cv, l), l));
    }
}

} // verus!
