//! Core stack types: data strings, variables, values, contracts.

use vstd::prelude::*;

use crate::crypto;
use crate::crypto::issue_flavor_of;
use crate::errors::VMError;
use curve25519_dalek::scalar::Scalar;

verus! {

/// An opaque byte string on the stack or in a contract payload.
///
/// The bytes are held as an owned string: pushed and decoded items
/// carry their own copy of the transaction bytes rather than a span
/// into a shared buffer.
pub struct Data {
    pub bytes: Vec<u8>,
}

/// An opaque handle into the variable commitment table.
pub struct Variable {
    pub index: usize,
}

/// A confidential asset unit: quantity and flavor variables.
pub struct Value {
    pub qty: Variable,
    pub flv: Variable,
}

/// The constraint-system-native counterpart of `Value`: raw
/// constraint-system variable handles plus an optional prover-side
/// witness pair of canonical scalar byte strings.
pub struct WideValue {
    pub r1cs_qty: u64,
    pub r1cs_flv: u64,
    pub witness: Option<(Vec<u8>, Vec<u8>)>,
}

/// A compressed group element gating who may unlock a contract.
pub struct Predicate(pub Vec<u8>);

/// A linear combination of constraint-system variables with scalar
/// coefficients, as (variable handle, canonical scalar bytes) terms.
pub struct Expression {
    pub terms: Vec<(u64, Vec<u8>)>,
}

/// A boolean proposition over expressions: equality, conjunction or
/// disjunction, recursively composed. Conjunction and disjunction
/// are binary nodes; wider junctions are written as nested trees.
pub enum Constraint {
    Eq(Expression, Expression),
    And(Box<Constraint>, Box<Constraint>),
    Or(Box<Constraint>, Box<Constraint>),
}

/// The restricted subset of items allowed to cross a contract boundary.
pub enum PortableItem {
    Data(Data),
    Value(Value),
}

/// A bundle of portable payload items locked behind a predicate.
pub struct Contract {
    pub payload: Vec<PortableItem>,
    pub predicate: Predicate,
}

/// A polymorphic stack cell: exactly one variant is active.
pub enum Item {
    Data(Data),
    Contract(Contract),
    Value(Value),
    WideValue(WideValue),
    Variable(Variable),
    Expression(Expression),
    Constraint(Constraint),
}

/// Mathematical model of a value: the two table indices.
pub struct ValueV {
    pub qty: int,
    pub flv: int,
}

/// Mathematical model of a wide value.
pub struct WideValueV {
    pub r1cs_qty: u64,
    pub r1cs_flv: u64,
    pub witness: Option<(Seq<u8>, Seq<u8>)>,
}

/// Mathematical model of a constraint tree.
pub enum ConstraintV {
    Eq(Seq<(u64, Seq<u8>)>, Seq<(u64, Seq<u8>)>),
    And(Box<ConstraintV>, Box<ConstraintV>),
    Or(Box<ConstraintV>, Box<ConstraintV>),
}

/// Mathematical model of a portable item.
pub enum PortableItemV {
    Data(Seq<u8>),
    Value(ValueV),
}

/// Mathematical model of a contract.
pub struct ContractV {
    pub payload: Seq<PortableItemV>,
    pub predicate: Seq<u8>,
}

/// Mathematical model of a stack cell.
pub enum ItemV {
    Data(Seq<u8>),
    Contract(ContractV),
    Value(ValueV),
    WideValue(WideValueV),
    Variable(int),
    Expression(Seq<(u64, Seq<u8>)>),
    Constraint(ConstraintV),
}

impl View for Data {
    type V = Seq<u8>;

    open spec fn view(&self) -> Seq<u8> {
        self.bytes@
    }
}

impl View for Variable {
    type V = int;

    open spec fn view(&self) -> int {
        self.index as int
    }
}

impl View for Value {
    type V = ValueV;

    open spec fn view(&self) -> ValueV {
        ValueV { qty: self.qty@, flv: self.flv@ }
    }
}

impl View for WideValue {
    type V = WideValueV;

    open spec fn view(&self) -> WideValueV {
        WideValueV {
            r1cs_qty: self.r1cs_qty,
            r1cs_flv: self.r1cs_flv,
            witness: match self.witness {
                Some((q, b)) => Some((q@, b@)),
                None => None,
            },
        }
    }
}

impl View for Predicate {
    type V = Seq<u8>;

    open spec fn view(&self) -> Seq<u8> {
        self.0@
    }
}

impl View for Expression {
    type V = Seq<(u64, Seq<u8>)>;

    open spec fn view(&self) -> Seq<(u64, Seq<u8>)> {
        self.terms@.map_values(|t: (u64, Vec<u8>)| (t.0, t.1@))
    }
}

impl View for Constraint {
    type V = ConstraintV;

    open spec fn view(&self) -> ConstraintV
        decreases self,
    {
        match self {
            Constraint::Eq(a, b) => ConstraintV::Eq(a@, b@),
            Constraint::And(l, r) => ConstraintV::And(Box::new((**l)@), Box::new((**r)@)),
            Constraint::Or(l, r) => ConstraintV::Or(Box::new((**l)@), Box::new((**r)@)),
        }
    }
}

impl View for PortableItem {
    type V = PortableItemV;

    open spec fn view(&self) -> PortableItemV {
        match self {
            PortableItem::Data(d) => PortableItemV::Data(d@),
            PortableItem::Value(v) => PortableItemV::Value(v@),
        }
    }
}

impl View for Contract {
    type V = ContractV;

    open spec fn view(&self) -> ContractV {
        ContractV {
            payload: self.payload@.map_values(|p: PortableItem| p@),
            predicate: self.predicate@,
        }
    }
}

impl View for Item {
    type V = ItemV;

    open spec fn view(&self) -> ItemV {
        match self {
            Item::Data(d) => ItemV::Data(d@),
            Item::Contract(c) => ItemV::Contract(c@),
            Item::Value(v) => ItemV::Value(v@),
            Item::WideValue(w) => ItemV::WideValue(w@),
            Item::Variable(v) => ItemV::Variable(v@),
            Item::Expression(e) => ItemV::Expression(e@),
            Item::Constraint(c) => ItemV::Constraint(c@),
        }
    }
}

/// Whether a stack cell may be duplicated or dropped.
///
/// `Data`, `Variable`, `Expression` and `Constraint` are copyable;
/// `Contract`, `Value` and `WideValue` are linear and must be consumed
/// exactly once by a consuming instruction.
pub open spec fn is_copyable(item: ItemV) -> bool {
    match item {
        ItemV::Data(_) => true,
        ItemV::Variable(_) => true,
        ItemV::Expression(_) => true,
        ItemV::Constraint(_) => true,
        ItemV::Contract(_) => false,
        ItemV::Value(_) => false,
        ItemV::WideValue(_) => false,
    }
}

/// Copies a byte string.
pub(crate) fn clone_bytes(v: &Vec<u8>) -> (r: Vec<u8>)
    ensures
        r@ == v@,
{
    let mut out: Vec<u8> = Vec::new();
    let mut i: usize = 0;
    while i < v.len()
        invariant
            i <= v@.len(),
            out@ == v@.take(i as int),
        decreases v@.len() - i,
    {
        out.push(v[i]);
        i = i + 1;
        assert(out@ =~= v@.take(i as int));
    }
    assert(out@ =~= v@);
    out
}

impl Expression {
    /// Copies an expression, term by term.
    fn duplicate(&self) -> (r: Expression)
        ensures
            r@ == self@,
    {
        let mut terms: Vec<(u64, Vec<u8>)> = Vec::new();
        let mut i: usize = 0;
        while i < self.terms.len()
            invariant
                i <= self.terms@.len(),
                terms@.len() == i,
                forall|j: int|
                    0 <= j < i ==> (#[trigger] terms@[j]).0 == self.terms@[j].0 && terms@[j].1@
                        == self.terms@[j].1@,
            decreases self.terms@.len() - i,
        {
            let coeff = clone_bytes(&self.terms[i].1);
            terms.push((self.terms[i].0, coeff));
            i = i + 1;
        }
        let r = Expression { terms };
        assert(r@ =~= self@);
        r
    }
}

impl Constraint {
    /// Copies a constraint tree.
    fn duplicate(&self) -> (r: Constraint)
        ensures
            r@ == self@,
        decreases self,
    {
        match self {
            Constraint::Eq(a, b) => Constraint::Eq(a.duplicate(), b.duplicate()),
            Constraint::And(l, r) => Constraint::And(
                Box::new(l.duplicate()),
                Box::new(r.duplicate()),
            ),
            Constraint::Or(l, r) => Constraint::Or(
                Box::new(l.duplicate()),
                Box::new(r.duplicate()),
            ),
        }
    }
}

impl Item {
    /// Copies a copyable stack cell; a linear cell is a type error.
    pub fn duplicate(&self) -> (r: Result<Item, VMError>)
        ensures
            is_copyable(self@) ==> (r matches Ok(it) && it@ == self@),
            !is_copyable(self@) ==> r == Err::<Item, VMError>(VMError::TypeNotCopyable),
    {
        match self {
            Item::Data(d) => Ok(Item::Data(Data { bytes: clone_bytes(&d.bytes) })),
            Item::Variable(v) => Ok(Item::Variable(Variable { index: v.index })),
            Item::Expression(e) => Ok(Item::Expression(e.duplicate())),
            Item::Constraint(c) => Ok(Item::Constraint(c.duplicate())),
            _ => Err(VMError::TypeNotCopyable),
        }
    }

    /// Downcasts to a data string.
    pub fn to_data(self) -> (r: Result<Data, VMError>)
        ensures
            self is Data ==> (r matches Ok(d) && d@ == self@->Data_0),
            !(self is Data) ==> r == Err::<Data, VMError>(VMError::TypeNotData),
    {
        match self {
            Item::Data(d) => Ok(d),
            _ => Err(VMError::TypeNotData),
        }
    }

    /// Downcasts to a portable item: only data and values may cross a
    /// contract boundary.
    pub fn to_portable(self) -> (r: Result<PortableItem, VMError>)
        ensures
            self is Data ==> (r matches Ok(p) && p@ == PortableItemV::Data(self@->Data_0)),
            self is Value ==> (r matches Ok(p) && p@ == PortableItemV::Value(self@->Value_0)),
            !(self is Data) && !(self is Value) ==> r == Err::<PortableItem, VMError>(
                VMError::TypeNotPortable,
            ),
    {
        match self {
            Item::Data(d) => Ok(PortableItem::Data(d)),
            Item::Value(v) => Ok(PortableItem::Value(v)),
            _ => Err(VMError::TypeNotPortable),
        }
    }

    /// Downcasts to a variable.
    pub fn to_variable(self) -> (r: Result<Variable, VMError>)
        ensures
            self is Variable ==> (r matches Ok(v) && v@ == self@->Variable_0),
            !(self is Variable) ==> r == Err::<Variable, VMError>(VMError::TypeNotVariable),
    {
        match self {
            Item::Variable(v) => Ok(v),
            _ => Err(VMError::TypeNotVariable),
        }
    }

    /// Downcasts to an expression; a variable is not implicitly cast.
    pub fn to_expression(self) -> (r: Result<Expression, VMError>)
        ensures
            self is Expression ==> (r matches Ok(e) && e@ == self@->Expression_0),
            !(self is Expression) ==> r == Err::<Expression, VMError>(VMError::TypeNotExpression),
    {
        match self {
            Item::Expression(e) => Ok(e),
            _ => Err(VMError::TypeNotExpression),
        }
    }

    /// Downcasts to a value.
    pub fn to_value(self) -> (r: Result<Value, VMError>)
        ensures
            self is Value ==> (r matches Ok(v) && v@ == self@->Value_0),
            !(self is Value) ==> r == Err::<Value, VMError>(VMError::TypeNotValue),
    {
        match self {
            Item::Value(v) => Ok(v),
            _ => Err(VMError::TypeNotValue),
        }
    }

    /// Downcasts to a wide value; a value is not implicitly cast.
    pub fn to_wide_value(self) -> (r: Result<WideValue, VMError>)
        ensures
            self is WideValue ==> (r matches Ok(w) && w@ == self@->WideValue_0),
            !(self is WideValue) ==> r == Err::<WideValue, VMError>(VMError::TypeNotWideValue),
    {
        match self {
            Item::WideValue(w) => Ok(w),
            _ => Err(VMError::TypeNotWideValue),
        }
    }

    /// Downcasts to a contract.
    pub fn to_contract(self) -> (r: Result<Contract, VMError>)
        ensures
            self is Contract ==> (r matches Ok(c) && c@ == self@->Contract_0),
            !(self is Contract) ==> r == Err::<Contract, VMError>(VMError::TypeNotContract),
    {
        match self {
            Item::Contract(c) => Ok(c),
            _ => Err(VMError::TypeNotContract),
        }
    }
}


// Upcasts: every stack type embeds into `Item` totally.

impl From<Data> for Item {
    fn from(x: Data) -> (r: Self) {
        Item::Data(x)
    }
}

impl vstd::std_specs::convert::FromSpecImpl<Data> for Item {
    open spec fn obeys_from_spec() -> bool {
        true
    }

    open spec fn from_spec(x: Data) -> Self {
        Item::Data(x)
    }
}

impl From<Value> for Item {
    fn from(x: Value) -> (r: Self) {
        Item::Value(x)
    }
}

impl vstd::std_specs::convert::FromSpecImpl<Value> for Item {
    open spec fn obeys_from_spec() -> bool {
        true
    }

    open spec fn from_spec(x: Value) -> Self {
        Item::Value(x)
    }
}

impl From<WideValue> for Item {
    fn from(x: WideValue) -> (r: Self) {
        Item::WideValue(x)
    }
}

impl vstd::std_specs::convert::FromSpecImpl<WideValue> for Item {
    open spec fn obeys_from_spec() -> bool {
        true
    }

    open spec fn from_spec(x: WideValue) -> Self {
        Item::WideValue(x)
    }
}

impl From<Contract> for Item {
    fn from(x: Contract) -> (r: Self) {
        Item::Contract(x)
    }
}

impl vstd::std_specs::convert::FromSpecImpl<Contract> for Item {
    open spec fn obeys_from_spec() -> bool {
        true
    }

    open spec fn from_spec(x: Contract) -> Self {
        Item::Contract(x)
    }
}

impl From<Variable> for Item {
    fn from(x: Variable) -> (r: Self) {
        Item::Variable(x)
    }
}

impl vstd::std_specs::convert::FromSpecImpl<Variable> for Item {
    open spec fn obeys_from_spec() -> bool {
        true
    }

    open spec fn from_spec(x: Variable) -> Self {
        Item::Variable(x)
    }
}

impl From<Expression> for Item {
    fn from(x: Expression) -> (r: Self) {
        Item::Expression(x)
    }
}

impl vstd::std_specs::convert::FromSpecImpl<Expression> for Item {
    open spec fn obeys_from_spec() -> bool {
        true
    }

    open spec fn from_spec(x: Expression) -> Self {
        Item::Expression(x)
    }
}

impl From<Constraint> for Item {
    fn from(x: Constraint) -> (r: Self) {
        Item::Constraint(x)
    }
}

impl vstd::std_specs::convert::FromSpecImpl<Constraint> for Item {
    open spec fn obeys_from_spec() -> bool {
        true
    }

    open spec fn from_spec(x: Constraint) -> Self {
        Item::Constraint(x)
    }
}

impl From<PortableItem> for Item {
    fn from(portable: PortableItem) -> (r: Self) {
        match portable {
            PortableItem::Data(x) => Item::Data(x),
            PortableItem::Value(x) => Item::Value(x),
        }
    }
}

impl vstd::std_specs::convert::FromSpecImpl<PortableItem> for Item {
    open spec fn obeys_from_spec() -> bool {
        true
    }

    open spec fn from_spec(portable: PortableItem) -> Self {
        match portable {
            PortableItem::Data(x) => Item::Data(x),
            PortableItem::Value(x) => Item::Value(x),
        }
    }
}

impl Data {
    /// Checks the exact length of the data string.
    pub fn ensure_length(self, len: usize) -> (r: Result<Data, VMError>)
        ensures
            self@.len() == len ==> (r matches Ok(d) && d@ == self@),
            self@.len() != len ==> r == Err::<Data, VMError>(VMError::FormatError),
    {
        if self.bytes.len() != len {
            return Err(VMError::FormatError);
        }
        Ok(self)
    }

    /// Converts the data string to a 32-byte string.
    pub fn to_u8x32(self) -> (r: Result<Vec<u8>, VMError>)
        ensures
            self@.len() == 32 ==> (r matches Ok(b) && b@ == self@),
            self@.len() != 32 ==> r == Err::<Vec<u8>, VMError>(VMError::FormatError),
    {
        let d = self.ensure_length(32)?;
        Ok(d.bytes)
    }

    /// Converts the data string to the 32 bytes of a compressed point.
    /// As on the wire, the bytes are not checked for being a valid
    /// group element here; an invalid point surfaces when the deferred
    /// point operations are verified.
    pub fn to_point(self) -> (r: Result<Vec<u8>, VMError>)
        ensures
            self@.len() == 32 ==> (r matches Ok(b) && b@ == self@),
            self@.len() != 32 ==> r == Err::<Vec<u8>, VMError>(VMError::FormatError),
    {
        self.to_u8x32()
    }

    /// Converts the data string to a canonical scalar.
    pub fn to_scalar(self) -> (r: Result<Scalar, VMError>)
        ensures
            r is Ok <==> crypto::is_canonical_scalar(self@),
            r matches Ok(s) ==> s == crypto::scalar_val_of(self@),
            r is Err ==> r == Err::<Scalar, VMError>(VMError::FormatError),
    {
        let bytes = self.to_u8x32()?;
        match crypto::scalar_from_canonical(&bytes) {
            Some(s) => Ok(s),
            None => Err(VMError::FormatError),
        }
    }
}

impl Value {
    /// Computes the flavor scalar defined by the `issue` instruction
    /// from a predicate, as 32 canonical scalar bytes. The bound is
    /// the transcript collaborator's: a committed message must fit a
    /// 32-bit length.
    pub fn issue_flavor(predicate: &Predicate) -> (r: Vec<u8>)
        requires
            predicate@.len() < 0x1_0000_0000,
        ensures
            r@ == issue_flavor_of(predicate@),
            r@.len() == 32,
    {
        crypto::issue_flavor_bytes(&predicate.0)
    }
}

} // verus!
