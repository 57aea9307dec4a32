use vstd::prelude::*;
use vstd::string::*;

use crate::payload::{decimal_text, decimal_u64, to_decimal};
use crate::runner::{BililiveEntry, DebugEntry};

verus! {

/// Status of a successful admin request with no body.
pub const NO_CONTENT: u16 = 204;

/// Status of a creation that finds the entity already there.
pub const CONFLICT: u16 = 409;

/// Failures of the admin surface.
#[derive(Debug, Clone, PartialEq, Eq)]
pub enum CrudError {
    /// The store failed; its message.
    DBError(String),
    MissingVtuber,
    MissingField,
    /// A field payload that does not parse for its kind.
    InvalidValue { value: String },
    /// A reference exists but its target is absent.
    Inconsistency,
}

impl CrudError {
    /// The HTTP status the error is answered with.
    pub fn status_code(&self) -> (r: u16)
        ensures
            r == status_of(*self),
    {
        match self {
            CrudError::MissingVtuber | CrudError::MissingField => 404,
            CrudError::DBError(_) | CrudError::Inconsistency => 500,
            CrudError::InvalidValue { .. } => 400,
        }
    }
}

pub open spec fn status_of(e: CrudError) -> u16 {
    match e {
        CrudError::MissingVtuber | CrudError::MissingField => 404,
        CrudError::DBError(_) | CrudError::Inconsistency => 500,
        CrudError::InvalidValue { .. } => 400,
    }
}

/// One field of an entity: the task kind and its payload.
#[derive(Debug, Clone)]
pub struct Field {
    pub kind: String,
    pub value: String,
}

/// A catalog entity and its fields, one per task kind.
#[derive(Debug, Clone)]
pub struct Vtuber {
    pub name: String,
    pub fields: Vec<Field>,
}

/// The entities of the admin surface.
#[derive(Debug, Clone)]
pub struct Catalog {
    pub vtubers: Vec<Vtuber>,
}

pub type FieldsView = Seq<(Seq<char>, Seq<char>)>;

pub type EntityView = (Seq<char>, FieldsView);

impl View for Field {
    type V = (Seq<char>, Seq<char>);

    open spec fn view(&self) -> (Seq<char>, Seq<char>) {
        (self.kind@, self.value@)
    }
}

impl View for Vtuber {
    type V = EntityView;

    open spec fn view(&self) -> EntityView {
        (self.name@, self.fields@.map_values(|f: Field| f@))
    }
}

impl View for Catalog {
    type V = Seq<EntityView>;

    open spec fn view(&self) -> Seq<EntityView> {
        self.vtubers@.map_values(|v: Vtuber| v@)
    }
}

/// Where the entity `name` stands, if anywhere.
pub open spec fn find_entity(c: Seq<EntityView>, name: Seq<char>) -> Option<int> {
    if exists|i: int| 0 <= i < c.len() && (#[trigger] c[i]).0 == name {
        Some(choose|i: int| 0 <= i < c.len() && (#[trigger] c[i]).0 == name)
    } else {
        None
    }
}

/// Where the field of `kind` stands, if anywhere.
pub open spec fn find_field(fs: FieldsView, kind: Seq<char>) -> Option<int> {
    if exists|k: int| 0 <= k < fs.len() && (#[trigger] fs[k]).0 == kind {
        Some(choose|k: int| 0 <= k < fs.len() && (#[trigger] fs[k]).0 == kind)
    } else {
        None
    }
}

pub open spec fn unique_kinds(fs: FieldsView) -> bool {
    forall|a: int, b: int| 0 <= a < b < fs.len() ==> (#[trigger] fs[a]).0 != (#[trigger] fs[b]).0
}

/// Names are unique, and so are the kinds within each entity.
pub open spec fn catalog_wf(c: Seq<EntityView>) -> bool {
    &&& forall|a: int, b: int| 0 <= a < b < c.len() ==> (#[trigger] c[a]).0 != (#[trigger] c[b]).0
    &&& forall|i: int| 0 <= i < c.len() ==> unique_kinds(#[trigger] c[i].1)
}

pub open spec fn create_status(c: Seq<EntityView>, name: Seq<char>) -> u16 {
    if find_entity(c, name) is Some {
        CONFLICT
    } else {
        NO_CONTENT
    }
}

pub open spec fn after_create(c: Seq<EntityView>, name: Seq<char>) -> Seq<EntityView> {
    if find_entity(c, name) is Some {
        c
    } else {
        c.push((name, Seq::empty()))
    }
}

/// The payload of field `kind` of entity `name`, if both exist.
pub open spec fn field_value(c: Seq<EntityView>, name: Seq<char>, kind: Seq<char>) -> Option<Seq<char>> {
    match find_entity(c, name) {
        Some(i) => match find_field(c[i].1, kind) {
            Some(k) => Some(c[i].1[k].1),
            None => None,
        },
        None => None,
    }
}

pub open spec fn put_fields(fs: FieldsView, kind: Seq<char>, value: Seq<char>) -> FieldsView {
    match find_field(fs, kind) {
        Some(k) => fs.update(k, (kind, value)),
        None => fs.push((kind, value)),
    }
}

pub open spec fn after_put(c: Seq<EntityView>, name: Seq<char>, kind: Seq<char>, value: Seq<char>) -> Seq<
    EntityView,
> {
    match find_entity(c, name) {
        Some(i) => c.update(i, (name, put_fields(c[i].1, kind, value))),
        None => c,
    }
}

pub open spec fn after_delete_field(c: Seq<EntityView>, name: Seq<char>, kind: Seq<char>) -> Seq<
    EntityView,
> {
    match find_entity(c, name) {
        Some(i) => match find_field(c[i].1, kind) {
            Some(k) => c.update(i, (name, c[i].1.remove(k))),
            None => c,
        },
        None => c,
    }
}

pub open spec fn after_delete(c: Seq<EntityView>, name: Seq<char>) -> Seq<EntityView> {
    match find_entity(c, name) {
        Some(i) => c.remove(i),
        None => c,
    }
}

fn find_kind(fields: &Vec<Field>, kind: &String) -> (r: Option<usize>)
    requires
        unique_kinds(fields@.map_values(|f: Field| f@)),
    ensures
        r matches Some(k) ==> find_field(fields@.map_values(|f: Field| f@), kind@) == Some(k as int),
        r is None ==> find_field(fields@.map_values(|f: Field| f@), kind@) is None,
{
    let ghost fs = fields@.map_values(|f: Field| f@);
    let mut k: usize = 0;
    while k < fields.len()
        invariant
            k <= fields@.len(),
            fs == fields@.map_values(|f: Field| f@),
            unique_kinds(fs),
            forall|m: int| 0 <= m < k ==> (#[trigger] fs[m]).0 != kind@,
        decreases fields.len() - k,
    {
        if fields[k].kind == *kind {
            proof {
                assert(fs[k as int].0 == kind@);
                let c = choose|m: int| 0 <= m < fs.len() && (#[trigger] fs[m]).0 == kind@;
                if c != k as int {
                    if c < k as int {
                        assert(fs[c].0 != fs[k as int].0);
                    } else {
                        assert(fs[k as int].0 != fs[c].0);
                    }
                }
            }
            return Some(k);
        }
        k += 1;
    }
    None
}

impl Catalog {
    pub open spec fn wf(&self) -> bool {
        catalog_wf(self@)
    }

    pub fn new() -> (r: Catalog)
        ensures
            r.wf(),
            r@ == Seq::<EntityView>::empty(),
    {
        Catalog { vtubers: Vec::new() }
    }

    fn find(&self, name: &String) -> (r: Option<usize>)
        requires
            self.wf(),
        ensures
            r matches Some(i) ==> find_entity(self@, name@) == Some(i as int),
            r is None ==> find_entity(self@, name@) is None,
    {
        let mut i: usize = 0;
        while i < self.vtubers.len()
            invariant
                i <= self.vtubers@.len(),
                self.wf(),
                forall|m: int| 0 <= m < i ==> (#[trigger] self@[m]).0 != name@,
            decreases self.vtubers.len() - i,
        {
            if self.vtubers[i].name == *name {
                proof {
                    assert(self@[i as int].0 == name@);
                    let c = choose|m: int| 0 <= m < self@.len() && (#[trigger] self@[m]).0 == name@;
                    if c != i as int {
                        if c < i as int {
                            assert(self@[c].0 != self@[i as int].0);
                        } else {
                            assert(self@[i as int].0 != self@[c].0);
                        }
                    }
                }
                return Some(i);
            }
            i += 1;
        }
        None
    }

    /// Creates the entity `name` with no fields: `204`, or `409` when it exists.
    pub fn create(&mut self, name: &str) -> (r: u16)
        requires
            old(self).wf(),
        ensures
            final(self).wf(),
            r == create_status(old(self)@, name@),
            final(self)@ == after_create(old(self)@, name@),
    {
        let name = String::from_str(name);
        match self.find(&name) {
            Some(_) => CONFLICT,
            None => {
                let v = Vtuber { name, fields: Vec::new() };
                self.vtubers.push(v);
                proof {
                    assert(self@ == old(self)@.push(v@));
                    assert(v@.1 == Seq::<(Seq<char>, Seq<char>)>::empty());
                    assert forall|a: int, b: int|
                        0 <= a < b < self@.len() implies (#[trigger] self@[a]).0 != (#[trigger] self@[b]).0 by {
                        if b == self@.len() - 1 {
                            assert(old(self)@[a].0 != v@.0);
                        } else {
                            assert(old(self)@[a].0 != old(self)@[b].0);
                        }
                    }
                }
                NO_CONTENT
            },
        }
    }

    /// Reads the entity `name`.
    pub fn get(&self, name: &str) -> (r: Result<&Vtuber, CrudError>)
        requires
            self.wf(),
        ensures
            find_entity(self@, name@) is None <==> r == Err::<&Vtuber, CrudError>(CrudError::MissingVtuber),
            r is Ok <==> find_entity(self@, name@) is Some,
            r matches Ok(v) ==> exists|i: int|
                find_entity(self@, name@) == Some(i) && v@ == self@[i],
    {
        let name = String::from_str(name);
        match self.find(&name) {
            Some(i) => Ok(&self.vtubers[i]),
            None => Err(CrudError::MissingVtuber),
        }
    }

    /// Reads the payload of field `kind` of entity `name`.
    pub fn get_field(&self, name: &str, kind: &str) -> (r: Result<String, CrudError>)
        requires
            self.wf(),
        ensures
            r matches Ok(v) ==> field_value(self@, name@, kind@) == Some(v@),
            r is Ok <==> field_value(self@, name@, kind@) is Some,
            r == Err::<String, CrudError>(CrudError::MissingVtuber) <==> find_entity(self@, name@) is None,
            r == Err::<String, CrudError>(CrudError::MissingField) <==> (find_entity(self@, name@) is Some
                && field_value(self@, name@, kind@) is None),
    {
        let name = String::from_str(name);
        let kind = String::from_str(kind);
        match self.find(&name) {
            Some(i) => {
                proof {
                    assert(self.vtubers@[i as int]@ == self@[i as int]);
                }
                match find_kind(&self.vtubers[i].fields, &kind) {
                    Some(k) => Ok(self.vtubers[i].fields[k].value.clone()),
                    None => Err(CrudError::MissingField),
                }
            },
            None => Err(CrudError::MissingVtuber),
        }
    }

    /// Writes the payload of field `kind` of entity `name`, creating the field
    /// or replacing it: `204`. The payload is taken as already read for its kind.
    fn put_field(&mut self, name: &str, kind: &str, value: String) -> (r: Result<u16, CrudError>)
        requires
            old(self).wf(),
        ensures
            final(self).wf(),
            final(self)@ == after_put(old(self)@, name@, kind@, value@),
            find_entity(old(self)@, name@) is None <==> r == Err::<u16, CrudError>(
                CrudError::MissingVtuber,
            ),
            find_entity(old(self)@, name@) is Some <==> r == Ok::<u16, CrudError>(NO_CONTENT),
    {
        let name = String::from_str(name);
        let kind = String::from_str(kind);
        match self.find(&name) {
            Some(i) => {
                let ghost c0 = self@;
                let mut v = self.vtubers.remove(i);
                proof {
                    assert(v@ == c0[i as int]);
                }
                let ghost fs0 = v@.1;
                let found = find_kind(&v.fields, &kind);
                match found {
                    Some(k) => {
                        let f = Field { kind, value };
                        v.fields.set(k, f);
                        proof {
                            assert(v@.1 == fs0.update(k as int, f@));
                        }
                    },
                    None => {
                        let f = Field { kind, value };
                        v.fields.push(f);
                        proof {
                            assert(v@.1 == fs0.push(f@));
                        }
                    },
                }
                self.vtubers.insert(i, v);
                proof {
                    assert(self@ == c0.update(i as int, v@));
                    assert(v@.0 == name@);
                    assert(v@.1 == put_fields(fs0, kind@, value@));
                    let fs1 = v@.1;
                    assert forall|a: int, b: int| 0 <= a < b < fs1.len() implies (#[trigger] fs1[a]).0
                        != (#[trigger] fs1[b]).0 by {
                        if found is None && b == fs1.len() - 1 {
                            assert(fs1[a] == fs0[a]);
                        } else if found is Some {
                            let k = found->Some_0 as int;
                            if a != k && b != k {
                                assert(fs0[a].0 != fs0[b].0);
                            } else if a == k {
                                assert(fs0[a].0 == kind@);
                                assert(fs0[a].0 != fs0[b].0);
                            } else {
                                assert(fs0[b].0 == kind@);
                                assert(fs0[a].0 != fs0[b].0);
                            }
                        } else {
                            assert(fs0[a].0 != fs0[b].0);
                        }
                    }
                    assert forall|a: int, b: int|
                        0 <= a < b < self@.len() implies (#[trigger] self@[a]).0 != (#[trigger] self@[b]).0 by {
                        assert(c0[a].0 != c0[b].0);
                    }
                    assert forall|m: int| 0 <= m < self@.len() implies unique_kinds(#[trigger] self@[m].1) by {
                        if m != i as int {
                            assert(self@[m] == c0[m]);
                        }
                    }
                }
                Ok(NO_CONTENT)
            },
            None => Err(CrudError::MissingVtuber),
        }
    }

    /// Deletes field `kind` of entity `name`: `204`.
    pub fn delete_field(&mut self, name: &str, kind: &str) -> (r: Result<u16, CrudError>)
        requires
            old(self).wf(),
        ensures
            final(self).wf(),
            final(self)@ == after_delete_field(old(self)@, name@, kind@),
            r == Err::<u16, CrudError>(CrudError::MissingVtuber) <==> find_entity(old(self)@, name@) is None,
            r == Err::<u16, CrudError>(CrudError::MissingField) <==> (find_entity(old(self)@, name@) is Some
                && field_value(old(self)@, name@, kind@) is None),
            r is Ok <==> field_value(old(self)@, name@, kind@) is Some,
            r is Ok ==> r == Ok::<u16, CrudError>(NO_CONTENT),
    {
        let name = String::from_str(name);
        let kind = String::from_str(kind);
        match self.find(&name) {
            Some(i) => {
                proof {
                    assert(self.vtubers@[i as int]@ == self@[i as int]);
                }
                match find_kind(&self.vtubers[i].fields, &kind) {
                    Some(k) => {
                        let ghost c0 = self@;
                        let mut v = self.vtubers.remove(i);
                        proof {
                            assert(v@ == c0[i as int]);
                        }
                        let ghost fs0 = v@.1;
                        let _gone = v.fields.remove(k);
                        proof {
                            assert(v@.1 == fs0.remove(k as int));
                        }
                        self.vtubers.insert(i, v);
                        proof {
                            assert(self@ == c0.update(i as int, v@));
                            let fs1 = v@.1;
                            assert forall|a: int, b: int| 0 <= a < b < fs1.len() implies (
                            #[trigger] fs1[a]).0 != (#[trigger] fs1[b]).0 by {
                                let a0 = if a < k as int { a } else { a + 1 };
                                let b0 = if b < k as int { b } else { b + 1 };
                                assert(fs1[a] == fs0[a0] && fs1[b] == fs0[b0]);
                                assert(fs0[a0].0 != fs0[b0].0);
                            }
                            assert forall|a: int, b: int|
                                0 <= a < b < self@.len() implies (#[trigger] self@[a]).0 != (
                                #[trigger] self@[b]).0 by {
                                assert(c0[a].0 != c0[b].0);
                            }
                            assert forall|m: int|
                                0 <= m < self@.len() implies unique_kinds(#[trigger] self@[m].1) by {
                                if m != i as int {
                                    assert(self@[m] == c0[m]);
                                }
                            }
                        }
                        Ok(NO_CONTENT)
                    },
                    None => Err(CrudError::MissingField),
                }
            },
            None => Err(CrudError::MissingVtuber),
        }
    }

    /// Deletes the entity `name` and its fields: `204`.
    pub fn delete(&mut self, name: &str) -> (r: Result<u16, CrudError>)
        requires
            old(self).wf(),
        ensures
            final(self).wf(),
            final(self)@ == after_delete(old(self)@, name@),
            find_entity(old(self)@, name@) is None <==> r == Err::<u16, CrudError>(
                CrudError::MissingVtuber,
            ),
            find_entity(old(self)@, name@) is Some <==> r == Ok::<u16, CrudError>(NO_CONTENT),
    {
        let name = String::from_str(name);
        match self.find(&name) {
            Some(i) => {
                let ghost c0 = self@;
                let _gone = self.vtubers.remove(i);
                proof {
                    assert(self@ == c0.remove(i as int));
                    assert forall|a: int, b: int|
                        0 <= a < b < self@.len() implies (#[trigger] self@[a]).0 != (#[trigger] self@[b]).0 by {
                        let a0 = if a < i as int { a } else { a + 1 };
                        let b0 = if b < i as int { b } else { b + 1 };
                        assert(self@[a] == c0[a0] && self@[b] == c0[b0]);
                        assert(c0[a0].0 != c0[b0].0);
                    }
                    assert forall|m: int| 0 <= m < self@.len() implies unique_kinds(#[trigger] self@[m].1) by {
                        let m0 = if m < i as int { m } else { m + 1 };
                        assert(self@[m] == c0[m0]);
                    }
                }
                Ok(NO_CONTENT)
            },
            None => Err(CrudError::MissingVtuber),
        }
    }
}

impl Catalog {
    /// `PUT` of a debug task's field: the payload must read as a `u64`
    /// (else `InvalidValue`, and nothing is written); its decimal form is
    /// stored.
    pub fn put_debug(&mut self, name: &str, payload: &str) -> (r: Result<u16, CrudError>)
        requires
            old(self).wf(),
        ensures
            final(self).wf(),
            decimal_u64(payload.spec_bytes()) is None ==> (r matches Err(CrudError::InvalidValue { value })
                && value@ == payload@) && final(self)@ == old(self)@,
            decimal_u64(payload.spec_bytes()) matches Some(n) ==> {
                &&& final(self)@ == after_put(old(self)@, name@, "debug"@, decimal_text(n as nat))
                &&& find_entity(old(self)@, name@) is None <==> r == Err::<u16, CrudError>(CrudError::MissingVtuber)
                &&& find_entity(old(self)@, name@) is Some <==> r == Ok::<u16, CrudError>(NO_CONTENT)
            },
    {
        match DebugEntry::from_str_e(payload) {
            Ok(entry) => self.put_field(name, "debug", to_decimal(entry.id)),
            Err(e) => Err(e),
        }
    }

    /// `PUT` of a live-stream task's field: the payload must read as a `u64`
    /// (else `InvalidValue`, and nothing is written); its decimal form is
    /// stored.
    pub fn put_bililive(&mut self, name: &str, payload: &str) -> (r: Result<u16, CrudError>)
        requires
            old(self).wf(),
        ensures
            final(self).wf(),
            decimal_u64(payload.spec_bytes()) is None ==> (r matches Err(CrudError::InvalidValue { value })
                && value@ == payload@) && final(self)@ == old(self)@,
            decimal_u64(payload.spec_bytes()) matches Some(n) ==> {
                &&& final(self)@ == after_put(old(self)@, name@, "bililive"@, decimal_text(n as nat))
                &&& find_entity(old(self)@, name@) is None <==> r == Err::<u16, CrudError>(CrudError::MissingVtuber)
                &&& find_entity(old(self)@, name@) is Some <==> r == Ok::<u16, CrudError>(NO_CONTENT)
            },
    {
        match BililiveEntry::from_str_e(payload) {
            Ok(entry) => self.put_field(name, "bililive", to_decimal(entry.uid)),
            Err(e) => Err(e),
        }
    }
}

/// Creating an entity and then reading it returns what was created: the
/// given name, with no fields.
pub proof fn lemma_create_then_read(c: Seq<EntityView>, name: Seq<char>)
    requires
        catalog_wf(c),
        find_entity(c, name) is None,
    ensures
        find_entity(after_create(c, name), name) == Some(c.len() as int),
        after_create(c, name)[c.len() as int] == (name, Seq::<(Seq<char>, Seq<char>)>::empty()),
{
    let c1 = after_create(c, name);
    assert(c1[c.len() as int].0 == name);
    let i = choose|i: int| 0 <= i < c1.len() && (#[trigger] c1[i]).0 == name;
    if i < c.len() {
        assert(c[i].0 == name);
    }
}

/// Writing a field and then reading it returns the written value.
pub proof fn lemma_put_then_get(c: Seq<EntityView>, name: Seq<char>, kind: Seq<char>, value: Seq<char>)
    requires
        catalog_wf(c),
        find_entity(c, name) is Some,
    ensures
        field_value(after_put(c, name, kind, value), name, kind) == Some(value),
{
    let i = find_entity(c, name)->Some_0;
    let c1 = after_put(c, name, kind, value);
    let fs0 = c[i].1;
    let fs1 = put_fields(fs0, kind, value);
    assert(c1[i] == (name, fs1));
    let j = choose|j: int| 0 <= j < c1.len() && (#[trigger] c1[j]).0 == name;
    if j != i {
        assert(c1[j] == c[j]);
        if j < i {
            assert(c[j].0 != c[i].0);
        } else {
            assert(c[i].0 != c[j].0);
        }
    }
    match find_field(fs0, kind) {
        Some(k) => {
            assert(fs1[k].0 == kind);
            let m = choose|m: int| 0 <= m < fs1.len() && (#[trigger] fs1[m]).0 == kind;
            if m != k {
                assert(fs1[m] == fs0[m]);
                if m < k {
                    assert(fs0[m].0 != fs0[k].0);
                } else {
                    assert(fs0[k].0 != fs0[m].0);
                }
            }
        },
        None => {
            assert(fs1[fs0.len() as int].0 == kind);
            let m = choose|m: int| 0 <= m < fs1.len() && (#[trigger] fs1[m]).0 == kind;
            if m < fs0.len() {
                assert(fs0[m].0 == kind);
            }
        },
    }
}

/// Creating the same entity twice answers `204`, then `409`.
pub proof fn lemma_create_twice(c: Seq<EntityView>, name: Seq<char>)
    requires
        find_entity(c, name) is None,
    ensures
        create_status(c, name) == NO_CONTENT,
        create_status(after_create(c, name), name) == CONFLICT,
{
    let c1 = after_create(c, name);
    assert(c1[c.len() as int].0 == name);
}

} // verus!
