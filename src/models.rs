//! The secret records that application packets carry.
use crate::wire::{lies_at, take_tag, Wire};
use vstd::prelude::*;

verus! {

#[derive(Clone, Copy, Debug, PartialEq, Eq, Hash, Structural)]
pub enum FieldType {
    Text,
    Hidden,
    CreditCard,
}

pub open spec fn field_type_tag(t: FieldType) -> u8 {
    match t {
        FieldType::Text => 0,
        FieldType::Hidden => 1,
        FieldType::CreditCard => 2,
    }
}

impl Wire for FieldType {
    type Model = FieldType;

    open spec fn model(&self) -> FieldType {
        *self
    }

    open spec fn wire(m: FieldType) -> Seq<u8> {
        seq![field_type_tag(m)]
    }

    proof fn lemma_wire_nonempty(m: FieldType) {
    }

    fn put(&self, out: &mut Vec<u8>) {
        let tag: u8 = match self {
            FieldType::Text => 0,
            FieldType::Hidden => 1,
            FieldType::CreditCard => 2,
        };
        out.push(tag);
        assert(final(out)@ =~= old(out)@ + Self::wire(*self));
    }

    fn take(b: &[u8], pos: usize) -> (r: Option<(FieldType, usize)>) {
        let t = match take_tag(b, pos) {
            None => {
                assert forall|m: FieldType| !#[trigger] lies_at(Self::wire(m), b@, pos as int) by {}
                return None;
            },
            Some(t) => t,
        };
        assert(pos < b@.len());
        let v = if t == 0 {
            FieldType::Text
        } else if t == 1 {
            FieldType::Hidden
        } else if t == 2 {
            FieldType::CreditCard
        } else {
            assert forall|m: FieldType| !#[trigger] lies_at(Self::wire(m), b@, pos as int) by {
                if lies_at(Self::wire(m), b@, pos as int) {
                    assert(b@.subrange(pos as int, pos + 1)[0] == b@[pos as int]);
                }
            }
            return None;
        };
        proof {
            assert(b@.subrange(pos as int, pos + 1) =~= Self::wire(v));
            assert forall|m: FieldType| #[trigger] lies_at(Self::wire(m), b@, pos as int) implies m == v by {
                assert(b@.subrange(pos as int, pos + 1)[0] == b@[pos as int]);
            }
        }
        Some((v, pos + 1))
    }
}

#[derive(Clone, Copy, Debug, PartialEq, Eq, Hash, Structural)]
pub enum SecretType {
    Empty,
    Login,
}

pub open spec fn secret_type_tag(t: SecretType) -> u8 {
    match t {
        SecretType::Empty => 0,
        SecretType::Login => 1,
    }
}

impl Wire for SecretType {
    type Model = SecretType;

    open spec fn model(&self) -> SecretType {
        *self
    }

    open spec fn wire(m: SecretType) -> Seq<u8> {
        seq![secret_type_tag(m)]
    }

    proof fn lemma_wire_nonempty(m: SecretType) {
    }

    fn put(&self, out: &mut Vec<u8>) {
        let tag: u8 = match self {
            SecretType::Empty => 0,
            SecretType::Login => 1,
        };
        out.push(tag);
        assert(final(out)@ =~= old(out)@ + Self::wire(*self));
    }

    fn take(b: &[u8], pos: usize) -> (r: Option<(SecretType, usize)>) {
        let t = match take_tag(b, pos) {
            None => {
                assert forall|m: SecretType| !#[trigger] lies_at(Self::wire(m), b@, pos as int) by {}
                return None;
            },
            Some(t) => t,
        };
        assert(pos < b@.len());
        let v = if t == 0 {
            SecretType::Empty
        } else if t == 1 {
            SecretType::Login
        } else {
            assert forall|m: SecretType| !#[trigger] lies_at(Self::wire(m), b@, pos as int) by {
                if lies_at(Self::wire(m), b@, pos as int) {
                    assert(b@.subrange(pos as int, pos + 1)[0] == b@[pos as int]);
                }
            }
            return None;
        };
        proof {
            assert(b@.subrange(pos as int, pos + 1) =~= Self::wire(v));
            assert forall|m: SecretType| #[trigger] lies_at(Self::wire(m), b@, pos as int) implies m == v by {
                assert(b@.subrange(pos as int, pos + 1)[0] == b@[pos as int]);
            }
        }
        Some((v, pos + 1))
    }
}

/// A point in time: whole seconds since the Unix epoch and the nanoseconds
/// past them.
#[derive(Clone, Copy, Debug, PartialEq, Eq, Hash, Structural)]
pub struct Timestamp {
    pub secs: i64,
    pub nanos: u32,
}

impl Wire for Timestamp {
    type Model = Timestamp;

    open spec fn model(&self) -> Timestamp {
        *self
    }

    open spec fn wire(m: Timestamp) -> Seq<u8> {
        <(i64, u32) as Wire>::wire((m.secs, m.nanos))
    }

    proof fn lemma_wire_nonempty(m: Timestamp) {
    }

    fn put(&self, out: &mut Vec<u8>) {
        self.secs.put(out);
        self.nanos.put(out);
        assert(final(out)@ =~= old(out)@ + Self::wire(*self));
    }

    fn take(b: &[u8], pos: usize) -> (r: Option<(Timestamp, usize)>) {
        match <(i64, u32) as Wire>::take(b, pos) {
            None => {
                assert forall|m: Timestamp| !#[trigger] lies_at(Self::wire(m), b@, pos as int) by {
                    assert(!lies_at(<(i64, u32) as Wire>::wire((m.secs, m.nanos)), b@, pos as int));
                }
                None
            },
            Some(((secs, nanos), end)) => {
                let v = Timestamp { secs, nanos };
                assert forall|m: Timestamp| #[trigger] lies_at(Self::wire(m), b@, pos as int) implies m == v by {
                    assert(lies_at(<(i64, u32) as Wire>::wire((m.secs, m.nanos)), b@, pos as int));
                }
                Some((v, end))
            },
        }
    }
}

#[derive(Clone, Debug, PartialEq, Eq, Hash)]
pub struct Field {
    pub name: String,
    pub value: String,
    pub field_type: FieldType,
}

pub struct FieldView {
    pub name: Seq<char>,
    pub value: Seq<char>,
    pub field_type: FieldType,
}

pub open spec fn field_parts(m: FieldView) -> (Seq<char>, (Seq<char>, FieldType)) {
    (m.name, (m.value, m.field_type))
}

impl View for Field {
    type V = FieldView;

    open spec fn view(&self) -> FieldView {
        FieldView { name: self.name@, value: self.value@, field_type: self.field_type }
    }
}

impl Wire for Field {
    type Model = FieldView;

    open spec fn model(&self) -> FieldView {
        self@
    }

    open spec fn wire(m: FieldView) -> Seq<u8> {
        <(String, (String, FieldType)) as Wire>::wire(field_parts(m))
    }

    proof fn lemma_wire_nonempty(m: FieldView) {
        <(String, (String, FieldType)) as Wire>::lemma_wire_nonempty(field_parts(m));
    }

    fn put(&self, out: &mut Vec<u8>) {
        self.name.put(out);
        self.value.put(out);
        self.field_type.put(out);
        assert(final(out)@ =~= old(out)@ + Self::wire(self@));
    }

    fn take(b: &[u8], pos: usize) -> (r: Option<(Field, usize)>) {
        match <(String, (String, FieldType)) as Wire>::take(b, pos) {
            None => {
                assert forall|m: FieldView| !#[trigger] lies_at(Self::wire(m), b@, pos as int) by {
                    assert(!lies_at(<(String, (String, FieldType)) as Wire>::wire(field_parts(m)), b@, pos as int));
                }
                None
            },
            Some(((name, (value, field_type)), end)) => {
                let v = Field { name, value, field_type };
                assert forall|m: FieldView| #[trigger] lies_at(Self::wire(m), b@, pos as int) implies m == v@ by {
                    assert(lies_at(<(String, (String, FieldType)) as Wire>::wire(field_parts(m)), b@, pos as int));
                }
                Some((v, end))
            },
        }
    }
}

#[derive(Clone, Debug, PartialEq, Eq, Hash)]
pub struct Section {
    pub name: Option<String>,
    pub fields: Vec<Field>,
}

impl Default for Section {
    /// A section without a name or fields.
    fn default() -> (r: Section)
        ensures
            r@.name is None,
            r@.fields.len() == 0,
    {
        Section { name: None, fields: Vec::new() }
    }
}

pub struct SectionView {
    pub name: Option<Seq<char>>,
    pub fields: Seq<FieldView>,
}

pub open spec fn section_parts(m: SectionView) -> (Option<Seq<char>>, Seq<FieldView>) {
    (m.name, m.fields)
}

impl View for Section {
    type V = SectionView;

    open spec fn view(&self) -> SectionView {
        SectionView { name: self.name.model(), fields: self.fields.model() }
    }
}

impl Wire for Section {
    type Model = SectionView;

    open spec fn model(&self) -> SectionView {
        self@
    }

    open spec fn wire(m: SectionView) -> Seq<u8> {
        <(Option<String>, Vec<Field>) as Wire>::wire(section_parts(m))
    }

    proof fn lemma_wire_nonempty(m: SectionView) {
        <(Option<String>, Vec<Field>) as Wire>::lemma_wire_nonempty(section_parts(m));
    }

    fn put(&self, out: &mut Vec<u8>) {
        self.name.put(out);
        self.fields.put(out);
        assert(final(out)@ =~= old(out)@ + Self::wire(self@));
    }

    fn take(b: &[u8], pos: usize) -> (r: Option<(Section, usize)>) {
        match <(Option<String>, Vec<Field>) as Wire>::take(b, pos) {
            None => {
                assert forall|m: SectionView| !#[trigger] lies_at(Self::wire(m), b@, pos as int) by {
                    assert(!lies_at(<(Option<String>, Vec<Field>) as Wire>::wire(section_parts(m)), b@, pos as int));
                }
                None
            },
            Some(((name, fields), end)) => {
                let v = Section { name, fields };
                assert forall|m: SectionView| #[trigger] lies_at(Self::wire(m), b@, pos as int) implies m == v@ by {
                    assert(lies_at(<(Option<String>, Vec<Field>) as Wire>::wire(section_parts(m)), b@, pos as int));
                }
                Some((v, end))
            },
        }
    }
}

#[derive(Clone, Debug, PartialEq, Eq, Hash)]
pub struct Secret {
    pub id: String,
    pub secret_type: SecretType,
    pub name: String,
    pub icon: Option<String>,
    pub data: Vec<Section>,
    pub custom: Vec<Section>,
    pub notes: Option<String>,
    pub updated_at: Timestamp,
    pub created_at: Timestamp,
}

pub struct SecretView {
    pub id: Seq<char>,
    pub secret_type: SecretType,
    pub name: Seq<char>,
    pub icon: Option<Seq<char>>,
    pub data: Seq<SectionView>,
    pub custom: Seq<SectionView>,
    pub notes: Option<Seq<char>>,
    pub updated_at: Timestamp,
    pub created_at: Timestamp,
}

/// The fields of a secret in the order in which they are encoded.
pub type SecretParts = (
    String,
    (SecretType, (String, (Option<String>, (Vec<Section>, (Vec<Section>, (Option<String>, (Timestamp, Timestamp))))))),
);

pub open spec fn secret_parts(m: SecretView) -> (
    Seq<char>,
    (SecretType, (Seq<char>, (Option<Seq<char>>, (Seq<SectionView>, (Seq<SectionView>, (Option<Seq<char>>, (Timestamp, Timestamp))))))),
) {
    (m.id, (m.secret_type, (m.name, (m.icon, (m.data, (m.custom, (m.notes, (m.updated_at, m.created_at))))))))
}

impl View for Secret {
    type V = SecretView;

    open spec fn view(&self) -> SecretView {
        SecretView {
            id: self.id@,
            secret_type: self.secret_type,
            name: self.name@,
            icon: self.icon.model(),
            data: self.data.model(),
            custom: self.custom.model(),
            notes: self.notes.model(),
            updated_at: self.updated_at,
            created_at: self.created_at,
        }
    }
}

impl Wire for Secret {
    type Model = SecretView;

    open spec fn model(&self) -> SecretView {
        self@
    }

    open spec fn wire(m: SecretView) -> Seq<u8> {
        <SecretParts as Wire>::wire(secret_parts(m))
    }

    proof fn lemma_wire_nonempty(m: SecretView) {
        <SecretParts as Wire>::lemma_wire_nonempty(secret_parts(m));
    }

    #[verifier::rlimit(40)]
    fn put(&self, out: &mut Vec<u8>) {
        self.id.put(out);
        self.secret_type.put(out);
        self.name.put(out);
        self.icon.put(out);
        self.data.put(out);
        self.custom.put(out);
        self.notes.put(out);
        self.updated_at.put(out);
        self.created_at.put(out);
        assert(final(out)@ =~= old(out)@ + Self::wire(self@));
    }

    fn take(b: &[u8], pos: usize) -> (r: Option<(Secret, usize)>) {
        match <SecretParts as Wire>::take(b, pos) {
            None => {
                assert forall|m: SecretView| !#[trigger] lies_at(Self::wire(m), b@, pos as int) by {
                    assert(!lies_at(<SecretParts as Wire>::wire(secret_parts(m)), b@, pos as int));
                }
                None
            },
            Some(((id, (secret_type, (name, (icon, (data, (custom, (notes, (updated_at, created_at)))))))), end)) => {
                let v = Secret { id, secret_type, name, icon, data, custom, notes, updated_at, created_at };
                assert forall|m: SecretView| #[trigger] lies_at(Self::wire(m), b@, pos as int) implies m == v@ by {
                    assert(lies_at(<SecretParts as Wire>::wire(secret_parts(m)), b@, pos as int));
                }
                Some((v, end))
            },
        }
    }
}

} // verus!
