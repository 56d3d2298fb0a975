//! Interned strings.
use string_interner::StringInterner;
use vstd::prelude::*;

use crate::dom::v7400::node::StrSym;

verus! {

/// A `string_interner::StringInterner` whose symbols are of the type `usize`.
#[verifier::external_body]
#[derive(Debug, PartialEq)]
pub struct Interner {
    inner: StringInterner<usize>,
}

/// The strings that an interner holds, in the order in which they were interned.
pub uninterp spec fn interned(strings: Interner) -> Seq<Seq<char>>;

/// Calls `string_interner::StringInterner::new`, which makes an interner that holds
/// nothing.
#[verifier::external_body]
fn empty_interner() -> (strings: Interner)
    ensures
        interned(strings) == Seq::<Seq<char>>::empty(),
{
    Interner { inner: StringInterner::new() }
}

/// Calls `string_interner::StringInterner::get_or_intern`.
///
/// A string that the interner holds already is not added again. Any other string
/// is added at the end. Either way the call gives an index at which the string
/// stands.
#[verifier::external_body]
fn get_or_intern(strings: &mut Interner, string: &str) -> (symbol: usize)
    ensures
        interned(*final(strings)) == if interned(*old(strings)).contains(string@) {
            interned(*old(strings))
        } else {
            interned(*old(strings)).push(string@)
        },
        symbol < interned(*final(strings)).len(),
        interned(*final(strings))[symbol as int] == string@,
{
    strings.inner.get_or_intern(string)
}

/// Calls `string_interner::StringInterner::resolve`.
///
/// The call gives the string at the index `symbol`, or nothing if there are not
/// that many strings.
#[verifier::external_body]
fn resolve(strings: &Interner, symbol: usize) -> (r: Option<&str>)
    ensures
        match r {
            Some(string) => symbol < interned(*strings).len() && string@ == interned(
                *strings,
            )[symbol as int],
            None => interned(*strings).len() <= symbol,
        },
{
    strings.inner.resolve(symbol)
}

/// Calls the `clone` of `string_interner::StringInterner`, which copies the strings in
/// their order.
#[verifier::external_body]
fn clone_interner(strings: &Interner) -> (copy: Interner)
    ensures
        interned(copy) == interned(*strings),
{
    Interner { inner: strings.inner.clone() }
}

/// Strings that are kept once each and stood for by symbols.
#[derive(Debug, PartialEq)]
pub struct StringTable {
    strings: Interner,
}

impl View for StringTable {
    type V = Seq<Seq<char>>;

    /// The strings, each at the index that is its symbol.
    closed spec fn view(&self) -> Seq<Seq<char>> {
        interned(self.strings)
    }
}

impl Clone for StringTable {
    fn clone(&self) -> (copy: Self)
        ensures
            copy@ == self@,
    {
        StringTable { strings: clone_interner(&self.strings) }
    }
}

/// The table once `string` has been interned.
pub open spec fn with_string(table: Seq<Seq<char>>, string: Seq<char>) -> Seq<Seq<char>> {
    if table.contains(string) {
        table
    } else {
        table.push(string)
    }
}

impl StringTable {
    /// Whether the table holds every string once.
    pub open spec fn wf(&self) -> bool {
        self@.no_duplicates()
    }

    /// Creates an empty table.
    pub fn new() -> (table: Self)
        ensures
            table.wf(),
            table@ == Seq::<Seq<char>>::empty(),
    {
        StringTable { strings: empty_interner() }
    }

    /// Returns the symbol of the given string, which is added if the table does not
    /// hold it yet.
    pub fn get_or_intern(&mut self, string: &str) -> (sym: StrSym)
        requires
            old(self).wf(),
        ensures
            final(self).wf(),
            final(self)@ == with_string(old(self)@, string@),
            sym.0 < final(self)@.len(),
            final(self)@[sym.0 as int] == string@,
    {
        StrSym(get_or_intern(&mut self.strings, string))
    }

    /// Returns the string that the given symbol stands for, if there is one.
    pub fn resolve(&self, sym: StrSym) -> (string: Option<&str>)
        ensures
            match string {
                Some(string) => sym.0 < self@.len() && string@ == self@[sym.0 as int],
                None => self@.len() <= sym.0,
            },
    {
        resolve(&self.strings, sym.0)
    }
}

/// A symbol stands for the same string whatever else is interned later.
pub proof fn lemma_symbols_last(table: Seq<Seq<char>>, string: Seq<char>, sym: StrSym)
    requires
        sym.0 < table.len(),
    ensures
        sym.0 < with_string(table, string).len(),
        with_string(table, string)[sym.0 as int] == table[sym.0 as int],
{
}

/// Two symbols of a table are the same exactly where they stand for the same
/// string.
pub proof fn lemma_symbols_are_unique(table: StringTable, a: StrSym, b: StrSym)
    requires
        table.wf(),
        a.0 < table@.len(),
        b.0 < table@.len(),
    ensures
        a == b <==> table@[a.0 as int] == table@[b.0 as int],
{
}

/// To intern a string again changes nothing.
pub proof fn lemma_interning_is_idempotent(table: Seq<Seq<char>>, string: Seq<char>)
    ensures
        with_string(with_string(table, string), string) == with_string(table, string),
{
    if !table.contains(string) {
        assert(table.push(string)[table.len() as int] == string);
    }
}

} // verus!
