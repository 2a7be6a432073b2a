//! The symbol table of the semantic analysis: a stack of scopes, each a
//! finite map from names to symbols, and a map from array names to the
//! type of their elements.
use vstd::prelude::*;
use crate::ast::{opt_type_view, SpecType, Type};

verus! {

broadcast use vstd::std_specs::vec::group_vec_axioms;

/// What a name stands for.
#[derive(Debug)]
pub enum Symbol {
    Variable { ty: Type },
    Function { params: Vec<(Type, bool)>, ret: Option<Type> },
}

pub enum SpecSymbol {
    Variable(SpecType),
    Function(Seq<(SpecType, bool)>, Option<SpecType>),
}

pub open spec fn sig_view(s: Seq<(Type, bool)>) -> Seq<(SpecType, bool)> {
    s.map_values(|p: (Type, bool)| (p.0@, p.1))
}

impl View for Symbol {
    type V = SpecSymbol;

    open spec fn view(&self) -> SpecSymbol {
        match *self {
            Symbol::Variable { ty } => SpecSymbol::Variable(ty@),
            Symbol::Function { params, ret } => SpecSymbol::Function(
                sig_view(params@),
                opt_type_view(ret),
            ),
        }
    }
}

pub fn copy_opt_type(o: &Option<Type>) -> (r: Option<Type>)
    ensures
        opt_type_view(r) == opt_type_view(*o),
{
    match o {
        Some(t) => Some(t.copy()),
        None => None,
    }
}

pub fn copy_sig(v: &Vec<(Type, bool)>) -> (r: Vec<(Type, bool)>)
    ensures
        sig_view(r@) == sig_view(v@),
{
    let mut out: Vec<(Type, bool)> = Vec::new();
    let mut i: usize = 0;
    while i < v.len()
        invariant
            i <= v@.len(),
            out@.len() == i,
            forall|j: int| 0 <= j < i ==> #[trigger] out@[j].0@ == v@[j].0@ && out@[j].1 == v@[j].1,
        decreases v@.len() - i,
    {
        let p = (v[i].0.copy(), v[i].1);
        out.push(p);
        i += 1;
    }
    assert(sig_view(out@) =~= sig_view(v@));
    out
}

impl Symbol {
    pub fn copy(&self) -> (r: Symbol)
        ensures
            r@ == self@,
    {
        match self {
            Symbol::Variable { ty } => Symbol::Variable { ty: ty.copy() },
            Symbol::Function { params, ret } => Symbol::Function {
                params: copy_sig(params),
                ret: copy_opt_type(ret),
            },
        }
    }
}

/// A finite map given by a list of (name, value) entries with distinct names.
pub open spec fn entries_map<T: View>(s: Seq<(String, T)>) -> Map<Seq<char>, T::V>
    decreases s.len(),
{
    if s.len() == 0 {
        Map::empty()
    } else {
        entries_map(s.drop_last()).insert(s.last().0@, s.last().1@)
    }
}

pub open spec fn distinct_names<T>(s: Seq<(String, T)>) -> bool {
    forall|i: int, j: int| 0 <= i < j < s.len() ==> s[i].0@ != s[j].0@
}

pub proof fn lemma_entries_map<T: View>(s: Seq<(String, T)>)
    ensures
        forall|k: Seq<char>| #[trigger]
            entries_map(s).contains_key(k) <==> exists|i: int| 0 <= i < s.len() && s[i].0@ == k,
        distinct_names(s) ==> forall|i: int|
            0 <= i < s.len() ==> #[trigger] entries_map(s)[s[i].0@] == s[i].1@,
    decreases s.len(),
{
    if s.len() > 0 {
        let t = s.drop_last();
        lemma_entries_map(t);
        assert(entries_map(s) == entries_map(t).insert(s.last().0@, s.last().1@));
        assert forall|k: Seq<char>| #[trigger]
            entries_map(s).contains_key(k) <==> exists|i: int| 0 <= i < s.len() && s[i].0@ == k by {
            if entries_map(s).contains_key(k) && k != s.last().0@ {
                assert(entries_map(t).contains_key(k));
                let i = choose|i: int| 0 <= i < t.len() && t[i].0@ == k;
                assert(s[i] == t[i]);
            }
            if exists|i: int| 0 <= i < s.len() && s[i].0@ == k {
                let i = choose|i: int| 0 <= i < s.len() && s[i].0@ == k;
                if i < s.len() - 1 {
                    assert(t[i] == s[i]);
                }
            }
        }
        if distinct_names(s) {
            assert(distinct_names(t));
            assert forall|i: int| 0 <= i < s.len() implies #[trigger] entries_map(s)[s[i].0@]
                == s[i].1@ by {
                if i < s.len() - 1 {
                    assert(t[i] == s[i]);
                    assert(s[i].0@ != s.last().0@);
                }
            }
        }
    }
}

/// Position of `name` among the entries, if it occurs.
pub(crate) fn find_entry<T: View>(entries: &Vec<(String, T)>, name: &String) -> (r: Option<usize>)
    ensures
        match r {
            Some(i) => i < entries@.len() && entries@[i as int].0@ == name@,
            None => forall|i: int| 0 <= i < entries@.len() ==> entries@[i].0@ != name@,
        },
{
    let mut i: usize = 0;
    while i < entries.len()
        invariant
            i <= entries@.len(),
            forall|j: int| 0 <= j < i ==> entries@[j].0@ != name@,
        decreases entries@.len() - i,
    {
        if entries[i].0 == *name {
            return Some(i);
        }
        i += 1;
    }
    None
}

/// The model of a symbol table: scopes from the outermost (index 0) to the
/// innermost (last), and the element types recorded for arrays.
pub struct SpecTable {
    pub scopes: Seq<Map<Seq<char>, SpecSymbol>>,
    pub arrays: Map<Seq<char>, SpecType>,
}

/// What a name denotes: its entry in the innermost scope that has one.
pub open spec fn lookup_in(scopes: Seq<Map<Seq<char>, SpecSymbol>>, name: Seq<char>) -> Option<SpecSymbol>
    decreases scopes.len(),
{
    if scopes.len() == 0 {
        None
    } else if scopes.last().contains_key(name) {
        Some(scopes.last()[name])
    } else {
        lookup_in(scopes.drop_last(), name)
    }
}

impl SpecTable {
    pub open spec fn lookup(self, name: Seq<char>) -> Option<SpecSymbol> {
        lookup_in(self.scopes, name)
    }

    /// The table and the outcome of declaring `name` in the innermost scope.
    pub open spec fn insert(self, name: Seq<char>, sym: SpecSymbol) -> (SpecTable, Option<Seq<char>>) {
        if self.scopes.len() == 0 {
            (self, Some("No scope to insert symbol into"@))
        } else if self.scopes.last().contains_key(name) {
            (self, Some(msg_already_defined(name)))
        } else {
            (
                SpecTable {
                    scopes: self.scopes.update(
                        self.scopes.len() - 1,
                        self.scopes.last().insert(name, sym),
                    ),
                    arrays: self.arrays,
                },
                None,
            )
        }
    }

    pub open spec fn enter(self) -> SpecTable {
        SpecTable { scopes: self.scopes.push(Map::empty()), arrays: self.arrays }
    }

    pub open spec fn exit(self) -> SpecTable {
        if self.scopes.len() == 0 {
            self
        } else {
            SpecTable { scopes: self.scopes.drop_last(), arrays: self.arrays }
        }
    }

    pub open spec fn set_array(self, name: Seq<char>, ty: SpecType) -> SpecTable {
        SpecTable { scopes: self.scopes, arrays: self.arrays.insert(name, ty) }
    }

    pub open spec fn array_type(self, name: Seq<char>) -> Option<SpecType> {
        if self.arrays.contains_key(name) {
            Some(self.arrays[name])
        } else {
            None
        }
    }
}

pub open spec fn msg_already_defined(name: Seq<char>) -> Seq<char> {
    "Symbol '"@ + name + "' already defined in this scope"@
}

/// Symbol table with nested scopes.
pub struct SymbolTable {
    scopes: Vec<Vec<(String, Symbol)>>,
    /// Element types of arrays: array name -> element type.
    array_elem_types: Vec<(String, Type)>,
}

impl SymbolTable {
    #[verifier::type_invariant]
    spec fn well_formed(self) -> bool {
        &&& forall|i: int| 0 <= i < self.scopes@.len() ==> #[trigger] distinct_names(self.scopes@[i]@)
        &&& distinct_names(self.array_elem_types@)
    }

    pub closed spec fn spec_scopes(self) -> Seq<Map<Seq<char>, SpecSymbol>> {
        Seq::new(self.scopes@.len(), |i: int| entries_map(self.scopes@[i]@))
    }
}

impl View for SymbolTable {
    type V = SpecTable;

    open spec fn view(&self) -> SpecTable {
        SpecTable { scopes: self.spec_scopes(), arrays: self.spec_arrays() }
    }
}

impl SymbolTable {
    pub closed spec fn spec_arrays(self) -> Map<Seq<char>, SpecType> {
        entries_map(self.array_elem_types@)
    }
}

pub open spec fn builtin_fn(params: Seq<(SpecType, bool)>, ret: SpecType) -> SpecSymbol {
    SpecSymbol::Function(params, Some(ret))
}

/// The native functions of PSeInt and their signatures.
pub open spec fn builtin_scope() -> Map<Seq<char>, SpecSymbol> {
    let real_real = builtin_fn(seq![(SpecType::Real, false)], SpecType::Real);
    let real_int = builtin_fn(seq![(SpecType::Real, false)], SpecType::Integer);
    Map::empty()
        .insert("rc"@, real_real)
        .insert("raiz"@, real_real)
        .insert("abs"@, real_real)
        .insert("ln"@, real_real)
        .insert("exp"@, real_real)
        .insert("sen"@, real_real)
        .insert("cos"@, real_real)
        .insert("tan"@, real_real)
        .insert("asen"@, real_real)
        .insert("acos"@, real_real)
        .insert("atan"@, real_real)
        .insert("trunc"@, real_int)
        .insert("redon"@, real_int)
        .insert("azar"@, builtin_fn(seq![(SpecType::Integer, false)], SpecType::Integer))
        .insert(
            "aleatorio"@,
            builtin_fn(seq![(SpecType::Integer, false), (SpecType::Integer, false)], SpecType::Integer),
        )
        .insert("longitud"@, builtin_fn(seq![(SpecType::Str, false)], SpecType::Integer))
        .insert("mayusculas"@, builtin_fn(seq![(SpecType::Str, false)], SpecType::Str))
        .insert("minusculas"@, builtin_fn(seq![(SpecType::Str, false)], SpecType::Str))
        .insert(
            "subcadena"@,
            builtin_fn(
                seq![(SpecType::Str, false), (SpecType::Integer, false), (SpecType::Integer, false)],
                SpecType::Str,
            ),
        )
        .insert(
            "concatenar"@,
            builtin_fn(seq![(SpecType::Str, false), (SpecType::Str, false)], SpecType::Str),
        )
        .insert("convertiranumero"@, builtin_fn(seq![(SpecType::Str, false)], SpecType::Real))
        .insert("convertiratexto"@, builtin_fn(seq![(SpecType::Real, false)], SpecType::Str))
        .insert("horaactual"@, builtin_fn(seq![], SpecType::Integer))
        .insert("fechaactual"@, builtin_fn(seq![], SpecType::Integer))
}

fn sig1(t: Type) -> (r: Vec<(Type, bool)>)
    ensures
        sig_view(r@) == seq![(t@, false)],
{
    let mut v: Vec<(Type, bool)> = Vec::new();
    v.push((t, false));
    assert(sig_view(v@) =~= seq![(t@, false)]);
    v
}

fn builtin_entry(name: &str, params: Vec<(Type, bool)>, ret: Type) -> (r: (String, Symbol))
    ensures
        r.0@ == name@,
        r.1@ == SpecSymbol::Function(sig_view(params@), Some(ret@)),
{
    (String::from_str(name), Symbol::Function { params, ret: Some(ret) })
}

impl SymbolTable {
    /// A table with one scope that holds the native functions, and no arrays.
    pub fn new() -> (r: SymbolTable)
        ensures
            r@.scopes == seq![builtin_scope()],
            r@.arrays == Map::<Seq<char>, SpecType>::empty(),
    {
        let mut p2: Vec<(Type, bool)> = Vec::new();
        p2.push((Type::Integer, false));
        p2.push((Type::Integer, false));
        assert(sig_view(p2@) =~= seq![(SpecType::Integer, false), (SpecType::Integer, false)]);
        let mut p3: Vec<(Type, bool)> = Vec::new();
        p3.push((Type::String, false));
        p3.push((Type::Integer, false));
        p3.push((Type::Integer, false));
        assert(sig_view(p3@) =~= seq![
            (SpecType::Str, false),
            (SpecType::Integer, false),
            (SpecType::Integer, false),
        ]);
        let mut p4: Vec<(Type, bool)> = Vec::new();
        p4.push((Type::String, false));
        p4.push((Type::String, false));
        assert(sig_view(p4@) =~= seq![(SpecType::Str, false), (SpecType::Str, false)]);
        let p5: Vec<(Type, bool)> = Vec::new();
        assert(sig_view(p5@) =~= seq![]);
        let p6: Vec<(Type, bool)> = Vec::new();
        assert(sig_view(p6@) =~= seq![]);
        let e0 = builtin_entry("rc", sig1(Type::Real), Type::Real);
        let e1 = builtin_entry("raiz", sig1(Type::Real), Type::Real);
        let e2 = builtin_entry("abs", sig1(Type::Real), Type::Real);
        let e3 = builtin_entry("ln", sig1(Type::Real), Type::Real);
        let e4 = builtin_entry("exp", sig1(Type::Real), Type::Real);
        let e5 = builtin_entry("sen", sig1(Type::Real), Type::Real);
        let e6 = builtin_entry("cos", sig1(Type::Real), Type::Real);
        let e7 = builtin_entry("tan", sig1(Type::Real), Type::Real);
        let e8 = builtin_entry("asen", sig1(Type::Real), Type::Real);
        let e9 = builtin_entry("acos", sig1(Type::Real), Type::Real);
        let e10 = builtin_entry("atan", sig1(Type::Real), Type::Real);
        let e11 = builtin_entry("trunc", sig1(Type::Real), Type::Integer);
        let e12 = builtin_entry("redon", sig1(Type::Real), Type::Integer);
        let e13 = builtin_entry("azar", sig1(Type::Integer), Type::Integer);
        let e14 = builtin_entry("aleatorio", p2, Type::Integer);
        let e15 = builtin_entry("longitud", sig1(Type::String), Type::Integer);
        let e16 = builtin_entry("mayusculas", sig1(Type::String), Type::String);
        let e17 = builtin_entry("minusculas", sig1(Type::String), Type::String);
        let e18 = builtin_entry("subcadena", p3, Type::String);
        let e19 = builtin_entry("concatenar", p4, Type::String);
        let e20 = builtin_entry("convertiranumero", sig1(Type::String), Type::Real);
        let e21 = builtin_entry("convertiratexto", sig1(Type::Real), Type::String);
        let e22 = builtin_entry("horaactual", p5, Type::Integer);
        let e23 = builtin_entry("fechaactual", p6, Type::Integer);
        let e: Vec<(String, Symbol)> = vec![e0, e1, e2, e3, e4, e5, e6, e7, e8, e9, e10, e11, e12, e13, e14, e15, e16, e17, e18, e19, e20, e21, e22, e23];
        proof {
            reveal_strlit("rc");
            reveal_strlit("raiz");
            reveal_strlit("abs");
            reveal_strlit("ln");
            reveal_strlit("exp");
            reveal_strlit("sen");
            reveal_strlit("cos");
            reveal_strlit("tan");
            reveal_strlit("asen");
            reveal_strlit("acos");
            reveal_strlit("atan");
            reveal_strlit("trunc");
            reveal_strlit("redon");
            reveal_strlit("azar");
            reveal_strlit("aleatorio");
            reveal_strlit("longitud");
            reveal_strlit("mayusculas");
            reveal_strlit("minusculas");
            reveal_strlit("subcadena");
            reveal_strlit("concatenar");
            reveal_strlit("convertiranumero");
            reveal_strlit("convertiratexto");
            reveal_strlit("horaactual");
            reveal_strlit("fechaactual");
            assert(e0.0@.len() != e1.0@.len());
            assert(e0.0@.len() != e2.0@.len());
            assert(e0.0@[0] != e3.0@[0]);
            assert(e0.0@.len() != e4.0@.len());
            assert(e0.0@.len() != e5.0@.len());
            assert(e0.0@.len() != e6.0@.len());
            assert(e0.0@.len() != e7.0@.len());
            assert(e0.0@.len() != e8.0@.len());
            assert(e0.0@.len() != e9.0@.len());
            assert(e0.0@.len() != e10.0@.len());
            assert(e0.0@.len() != e11.0@.len());
            assert(e0.0@.len() != e12.0@.len());
            assert(e0.0@.len() != e13.0@.len());
            assert(e0.0@.len() != e14.0@.len());
            assert(e0.0@.len() != e15.0@.len());
            assert(e0.0@.len() != e16.0@.len());
            assert(e0.0@.len() != e17.0@.len());
            assert(e0.0@.len() != e18.0@.len());
            assert(e0.0@.len() != e19.0@.len());
            assert(e0.0@.len() != e20.0@.len());
            assert(e0.0@.len() != e21.0@.len());
            assert(e0.0@.len() != e22.0@.len());
            assert(e0.0@.len() != e23.0@.len());
            assert(e1.0@.len() != e2.0@.len());
            assert(e1.0@.len() != e3.0@.len());
            assert(e1.0@.len() != e4.0@.len());
            assert(e1.0@.len() != e5.0@.len());
            assert(e1.0@.len() != e6.0@.len());
            assert(e1.0@.len() != e7.0@.len());
            assert(e1.0@[0] != e8.0@[0]);
            assert(e1.0@[0] != e9.0@[0]);
            assert(e1.0@[0] != e10.0@[0]);
            assert(e1.0@.len() != e11.0@.len());
            assert(e1.0@.len() != e12.0@.len());
            assert(e1.0@[0] != e13.0@[0]);
            assert(e1.0@.len() != e14.0@.len());
            assert(e1.0@.len() != e15.0@.len());
            assert(e1.0@.len() != e16.0@.len());
            assert(e1.0@.len() != e17.0@.len());
            assert(e1.0@.len() != e18.0@.len());
            assert(e1.0@.len() != e19.0@.len());
            assert(e1.0@.len() != e20.0@.len());
            assert(e1.0@.len() != e21.0@.len());
            assert(e1.0@.len() != e22.0@.len());
            assert(e1.0@.len() != e23.0@.len());
            assert(e2.0@.len() != e3.0@.len());
            assert(e2.0@[0] != e4.0@[0]);
            assert(e2.0@[0] != e5.0@[0]);
            assert(e2.0@[0] != e6.0@[0]);
            assert(e2.0@[0] != e7.0@[0]);
            assert(e2.0@.len() != e8.0@.len());
            assert(e2.0@.len() != e9.0@.len());
            assert(e2.0@.len() != e10.0@.len());
            assert(e2.0@.len() != e11.0@.len());
            assert(e2.0@.len() != e12.0@.len());
            assert(e2.0@.len() != e13.0@.len());
            assert(e2.0@.len() != e14.0@.len());
            assert(e2.0@.len() != e15.0@.len());
            assert(e2.0@.len() != e16.0@.len());
            assert(e2.0@.len() != e17.0@.len());
            assert(e2.0@.len() != e18.0@.len());
            assert(e2.0@.len() != e19.0@.len());
            assert(e2.0@.len() != e20.0@.len());
            assert(e2.0@.len() != e21.0@.len());
            assert(e2.0@.len() != e22.0@.len());
            assert(e2.0@.len() != e23.0@.len());
            assert(e3.0@.len() != e4.0@.len());
            assert(e3.0@.len() != e5.0@.len());
            assert(e3.0@.len() != e6.0@.len());
            assert(e3.0@.len() != e7.0@.len());
            assert(e3.0@.len() != e8.0@.len());
            assert(e3.0@.len() != e9.0@.len());
            assert(e3.0@.len() != e10.0@.len());
            assert(e3.0@.len() != e11.0@.len());
            assert(e3.0@.len() != e12.0@.len());
            assert(e3.0@.len() != e13.0@.len());
            assert(e3.0@.len() != e14.0@.len());
            assert(e3.0@.len() != e15.0@.len());
            assert(e3.0@.len() != e16.0@.len());
            assert(e3.0@.len() != e17.0@.len());
            assert(e3.0@.len() != e18.0@.len());
            assert(e3.0@.len() != e19.0@.len());
            assert(e3.0@.len() != e20.0@.len());
            assert(e3.0@.len() != e21.0@.len());
            assert(e3.0@.len() != e22.0@.len());
            assert(e3.0@.len() != e23.0@.len());
            assert(e4.0@[0] != e5.0@[0]);
            assert(e4.0@[0] != e6.0@[0]);
            assert(e4.0@[0] != e7.0@[0]);
            assert(e4.0@.len() != e8.0@.len());
            assert(e4.0@.len() != e9.0@.len());
            assert(e4.0@.len() != e10.0@.len());
            assert(e4.0@.len() != e11.0@.len());
            assert(e4.0@.len() != e12.0@.len());
            assert(e4.0@.len() != e13.0@.len());
            assert(e4.0@.len() != e14.0@.len());
            assert(e4.0@.len() != e15.0@.len());
            assert(e4.0@.len() != e16.0@.len());
            assert(e4.0@.len() != e17.0@.len());
            assert(e4.0@.len() != e18.0@.len());
            assert(e4.0@.len() != e19.0@.len());
            assert(e4.0@.len() != e20.0@.len());
            assert(e4.0@.len() != e21.0@.len());
            assert(e4.0@.len() != e22.0@.len());
            assert(e4.0@.len() != e23.0@.len());
            assert(e5.0@[0] != e6.0@[0]);
            assert(e5.0@[0] != e7.0@[0]);
            assert(e5.0@.len() != e8.0@.len());
            assert(e5.0@.len() != e9.0@.len());
            assert(e5.0@.len() != e10.0@.len());
            assert(e5.0@.len() != e11.0@.len());
            assert(e5.0@.len() != e12.0@.len());
            assert(e5.0@.len() != e13.0@.len());
            assert(e5.0@.len() != e14.0@.len());
            assert(e5.0@.len() != e15.0@.len());
            assert(e5.0@.len() != e16.0@.len());
            assert(e5.0@.len() != e17.0@.len());
            assert(e5.0@.len() != e18.0@.len());
            assert(e5.0@.len() != e19.0@.len());
            assert(e5.0@.len() != e20.0@.len());
            assert(e5.0@.len() != e21.0@.len());
            assert(e5.0@.len() != e22.0@.len());
            assert(e5.0@.len() != e23.0@.len());
            assert(e6.0@[0] != e7.0@[0]);
            assert(e6.0@.len() != e8.0@.len());
            assert(e6.0@.len() != e9.0@.len());
            assert(e6.0@.len() != e10.0@.len());
            assert(e6.0@.len() != e11.0@.len());
            assert(e6.0@.len() != e12.0@.len());
            assert(e6.0@.len() != e13.0@.len());
            assert(e6.0@.len() != e14.0@.len());
            assert(e6.0@.len() != e15.0@.len());
            assert(e6.0@.len() != e16.0@.len());
            assert(e6.0@.len() != e17.0@.len());
            assert(e6.0@.len() != e18.0@.len());
            assert(e6.0@.len() != e19.0@.len());
            assert(e6.0@.len() != e20.0@.len());
            assert(e6.0@.len() != e21.0@.len());
            assert(e6.0@.len() != e22.0@.len());
            assert(e6.0@.len() != e23.0@.len());
            assert(e7.0@.len() != e8.0@.len());
            assert(e7.0@.len() != e9.0@.len());
            assert(e7.0@.len() != e10.0@.len());
            assert(e7.0@.len() != e11.0@.len());
            assert(e7.0@.len() != e12.0@.len());
            assert(e7.0@.len() != e13.0@.len());
            assert(e7.0@.len() != e14.0@.len());
            assert(e7.0@.len() != e15.0@.len());
            assert(e7.0@.len() != e16.0@.len());
            assert(e7.0@.len() != e17.0@.len());
            assert(e7.0@.len() != e18.0@.len());
            assert(e7.0@.len() != e19.0@.len());
            assert(e7.0@.len() != e20.0@.len());
            assert(e7.0@.len() != e21.0@.len());
            assert(e7.0@.len() != e22.0@.len());
            assert(e7.0@.len() != e23.0@.len());
            assert(e8.0@[1] != e9.0@[1]);
            assert(e8.0@[1] != e10.0@[1]);
            assert(e8.0@.len() != e11.0@.len());
            assert(e8.0@.len() != e12.0@.len());
            assert(e8.0@[1] != e13.0@[1]);
            assert(e8.0@.len() != e14.0@.len());
            assert(e8.0@.len() != e15.0@.len());
            assert(e8.0@.len() != e16.0@.len());
            assert(e8.0@.len() != e17.0@.len());
            assert(e8.0@.len() != e18.0@.len());
            assert(e8.0@.len() != e19.0@.len());
            assert(e8.0@.len() != e20.0@.len());
            assert(e8.0@.len() != e21.0@.len());
            assert(e8.0@.len() != e22.0@.len());
            assert(e8.0@.len() != e23.0@.len());
            assert(e9.0@[1] != e10.0@[1]);
            assert(e9.0@.len() != e11.0@.len());
            assert(e9.0@.len() != e12.0@.len());
            assert(e9.0@[1] != e13.0@[1]);
            assert(e9.0@.len() != e14.0@.len());
            assert(e9.0@.len() != e15.0@.len());
            assert(e9.0@.len() != e16.0@.len());
            assert(e9.0@.len() != e17.0@.len());
            assert(e9.0@.len() != e18.0@.len());
            assert(e9.0@.len() != e19.0@.len());
            assert(e9.0@.len() != e20.0@.len());
            assert(e9.0@.len() != e21.0@.len());
            assert(e9.0@.len() != e22.0@.len());
            assert(e9.0@.len() != e23.0@.len());
            assert(e10.0@.len() != e11.0@.len());
            assert(e10.0@.len() != e12.0@.len());
            assert(e10.0@[1] != e13.0@[1]);
            assert(e10.0@.len() != e14.0@.len());
            assert(e10.0@.len() != e15.0@.len());
            assert(e10.0@.len() != e16.0@.len());
            assert(e10.0@.len() != e17.0@.len());
            assert(e10.0@.len() != e18.0@.len());
            assert(e10.0@.len() != e19.0@.len());
            assert(e10.0@.len() != e20.0@.len());
            assert(e10.0@.len() != e21.0@.len());
            assert(e10.0@.len() != e22.0@.len());
            assert(e10.0@.len() != e23.0@.len());
            assert(e11.0@[0] != e12.0@[0]);
            assert(e11.0@.len() != e13.0@.len());
            assert(e11.0@.len() != e14.0@.len());
            assert(e11.0@.len() != e15.0@.len());
            assert(e11.0@.len() != e16.0@.len());
            assert(e11.0@.len() != e17.0@.len());
            assert(e11.0@.len() != e18.0@.len());
            assert(e11.0@.len() != e19.0@.len());
            assert(e11.0@.len() != e20.0@.len());
            assert(e11.0@.len() != e21.0@.len());
            assert(e11.0@.len() != e22.0@.len());
            assert(e11.0@.len() != e23.0@.len());
            assert(e12.0@.len() != e13.0@.len());
            assert(e12.0@.len() != e14.0@.len());
            assert(e12.0@.len() != e15.0@.len());
            assert(e12.0@.len() != e16.0@.len());
            assert(e12.0@.len() != e17.0@.len());
            assert(e12.0@.len() != e18.0@.len());
            assert(e12.0@.len() != e19.0@.len());
            assert(e12.0@.len() != e20.0@.len());
            assert(e12.0@.len() != e21.0@.len());
            assert(e12.0@.len() != e22.0@.len());
            assert(e12.0@.len() != e23.0@.len());
            assert(e13.0@.len() != e14.0@.len());
            assert(e13.0@.len() != e15.0@.len());
            assert(e13.0@.len() != e16.0@.len());
            assert(e13.0@.len() != e17.0@.len());
            assert(e13.0@.len() != e18.0@.len());
            assert(e13.0@.len() != e19.0@.len());
            assert(e13.0@.len() != e20.0@.len());
            assert(e13.0@.len() != e21.0@.len());
            assert(e13.0@.len() != e22.0@.len());
            assert(e13.0@.len() != e23.0@.len());
            assert(e14.0@.len() != e15.0@.len());
            assert(e14.0@.len() != e16.0@.len());
            assert(e14.0@.len() != e17.0@.len());
            assert(e14.0@[0] != e18.0@[0]);
            assert(e14.0@.len() != e19.0@.len());
            assert(e14.0@.len() != e20.0@.len());
            assert(e14.0@.len() != e21.0@.len());
            assert(e14.0@.len() != e22.0@.len());
            assert(e14.0@.len() != e23.0@.len());
            assert(e15.0@.len() != e16.0@.len());
            assert(e15.0@.len() != e17.0@.len());
            assert(e15.0@.len() != e18.0@.len());
            assert(e15.0@.len() != e19.0@.len());
            assert(e15.0@.len() != e20.0@.len());
            assert(e15.0@.len() != e21.0@.len());
            assert(e15.0@.len() != e22.0@.len());
            assert(e15.0@.len() != e23.0@.len());
            assert(e16.0@[1] != e17.0@[1]);
            assert(e16.0@.len() != e18.0@.len());
            assert(e16.0@[0] != e19.0@[0]);
            assert(e16.0@.len() != e20.0@.len());
            assert(e16.0@.len() != e21.0@.len());
            assert(e16.0@[0] != e22.0@[0]);
            assert(e16.0@.len() != e23.0@.len());
            assert(e17.0@.len() != e18.0@.len());
            assert(e17.0@[0] != e19.0@[0]);
            assert(e17.0@.len() != e20.0@.len());
            assert(e17.0@.len() != e21.0@.len());
            assert(e17.0@[0] != e22.0@[0]);
            assert(e17.0@.len() != e23.0@.len());
            assert(e18.0@.len() != e19.0@.len());
            assert(e18.0@.len() != e20.0@.len());
            assert(e18.0@.len() != e21.0@.len());
            assert(e18.0@.len() != e22.0@.len());
            assert(e18.0@.len() != e23.0@.len());
            assert(e19.0@.len() != e20.0@.len());
            assert(e19.0@.len() != e21.0@.len());
            assert(e19.0@[0] != e22.0@[0]);
            assert(e19.0@.len() != e23.0@.len());
            assert(e20.0@.len() != e21.0@.len());
            assert(e20.0@.len() != e22.0@.len());
            assert(e20.0@.len() != e23.0@.len());
            assert(e21.0@.len() != e22.0@.len());
            assert(e21.0@.len() != e23.0@.len());
            assert(e22.0@.len() != e23.0@.len());
            assert(distinct_names(e@));
            lemma_entries_map(e@);
            assert(entries_map(e@) =~= builtin_scope());
        }
        let mut scopes: Vec<Vec<(String, Symbol)>> = Vec::new();
        scopes.push(e);
        let r = SymbolTable { scopes, array_elem_types: Vec::new() };
        proof {
            assert(r@.scopes =~= seq![builtin_scope()]);
            lemma_entries_map(r.array_elem_types@);
            assert(r@.arrays =~= Map::<Seq<char>, SpecType>::empty());
        }
        r
    }
}

impl SymbolTable {
    /// Opens a new, empty innermost scope.
    pub fn enter_scope(&mut self)
        ensures
            final(self)@ == old(self)@.enter(),
    {
        proof {
            use_type_invariant(&*self);
        }
        let ghost before = self@;
        let mut sc: Vec<Vec<(String, Symbol)>> = Vec::new();
        std::mem::swap(&mut sc, &mut self.scopes);
        sc.push(Vec::new());
        self.scopes = sc;
        proof {
            lemma_entries_map(Seq::<(String, Symbol)>::empty());
            assert(entries_map(Seq::<(String, Symbol)>::empty()) =~= Map::empty());
            assert(self@.scopes =~= before.scopes.push(Map::empty()));
        }
    }

    /// Closes the innermost scope, if there is one.
    pub fn exit_scope(&mut self)
        ensures
            final(self)@ == old(self)@.exit(),
    {
        proof {
            use_type_invariant(&*self);
        }
        let ghost before = self@;
        let mut sc: Vec<Vec<(String, Symbol)>> = Vec::new();
        std::mem::swap(&mut sc, &mut self.scopes);
        let _ = sc.pop();
        self.scopes = sc;
        proof {
            assert(self@.scopes =~= before.exit().scopes);
        }
    }

    /// Declares `name` in the innermost scope. It fails, leaving the table
    /// as it was, when there is no scope or the name is already declared in
    /// the innermost one.
    pub fn insert(&mut self, name: String, symbol: Symbol) -> (r: Result<(), String>)
        ensures
            final(self)@ == old(self)@.insert(name@, symbol@).0,
            match r {
                Ok(()) => old(self)@.insert(name@, symbol@).1 is None,
                Err(m) => old(self)@.insert(name@, symbol@).1 == Some(m@),
            },
    {
        proof {
            use_type_invariant(&*self);
        }
        let n = self.scopes.len();
        if n == 0 {
            return Err(String::from_str("No scope to insert symbol into"));
        }
        let ghost before = self@;
        let found = find_entry(&self.scopes[n - 1], &name);
        proof {
            lemma_entries_map(self.scopes@[n - 1]@);
        }
        if found.is_some() {
            let msg = crate::text::cat3("Symbol '", name.as_str(), "' already defined in this scope");
            return Err(msg);
        }
        let ghost old_scopes = self.scopes@;
        assert(distinct_names(old_scopes[n - 1]@));
        let mut sc: Vec<Vec<(String, Symbol)>> = Vec::new();
        std::mem::swap(&mut sc, &mut self.scopes);
        let mut last = sc.pop().unwrap();
        let ghost old_last = last@;
        assert(old_last == old_scopes[n - 1]@);
        last.push((name, symbol));
        proof {
            assert(last@.drop_last() =~= old_last);
            assert(distinct_names(last@));
            lemma_entries_map(last@);
        }
        sc.push(last);
        self.scopes = sc;
        proof {
            assert(entries_map(last@) == before.scopes.last().insert(name@, symbol@));
            assert(self@.scopes =~= before.scopes.update(
                before.scopes.len() - 1,
                before.scopes.last().insert(name@, symbol@),
            ));
        }
        Ok(())
    }

    /// The symbol that `name` denotes in the innermost scope that declares it.
    pub fn lookup(&self, name: &str) -> (r: Option<&Symbol>)
        ensures
            match r {
                Some(s) => self@.lookup(name@) == Some(s@),
                None => self@.lookup(name@) is None,
            },
    {
        proof {
            use_type_invariant(self);
        }
        let key = name.to_owned();
        let mut i = self.scopes.len();
        assert(self@.scopes.subrange(0, i as int) =~= self@.scopes);
        while i > 0
            invariant
                i <= self.scopes@.len(),
                key@ == name@,
                self@.lookup(name@) == lookup_in(self@.scopes.subrange(0, i as int), name@),
                forall|k: int| 0 <= k < self.scopes@.len() ==> #[trigger] distinct_names(self.scopes@[k]@),
            decreases i,
        {
            let j = i - 1;
            let found = find_entry(&self.scopes[j], &key);
            proof {
                lemma_entries_map(self.scopes@[j as int]@);
                assert(self@.scopes.subrange(0, i as int).last() == entries_map(self.scopes@[j as int]@));
                assert(self@.scopes.subrange(0, i as int).drop_last() =~= self@.scopes.subrange(0, j as int));
            }
            match found {
                Some(k) => {
                    return Some(&self.scopes[j][k].1);
                },
                None => {},
            }
            i = j;
        }
        None
    }

    /// Records the element type of an array.
    pub fn set_array_elem_type(&mut self, name: &str, ty: Type)
        ensures
            final(self)@ == old(self)@.set_array(name@, ty@),
    {
        proof {
            use_type_invariant(&*self);
        }
        let ghost before = self@;
        let key = name.to_owned();
        let found = find_entry(&self.array_elem_types, &key);
        proof {
            lemma_entries_map(self.array_elem_types@);
        }
        match found {
            Some(k) => {
                let ghost field_before = self.array_elem_types@;
                let mut entries: Vec<(String, Type)> = Vec::new();
                std::mem::swap(&mut entries, &mut self.array_elem_types);
                let ghost old_entries = entries@;
                assert(old_entries == field_before);
                assert(before.arrays == entries_map(old_entries));
                assert(distinct_names(old_entries));
                entries.set(k, (key, ty));
                proof {
                    assert(distinct_names(entries@)) by {
                        assert forall|a: int, b: int| 0 <= a < b < entries@.len() implies entries@[a].0@
                            != entries@[b].0@ by {
                            if a != k as int && b != k as int {
                                assert(entries@[a] == old_entries[a]);
                                assert(entries@[b] == old_entries[b]);
                            } else if a == k as int {
                                assert(entries@[b] == old_entries[b]);
                            } else {
                                assert(entries@[a] == old_entries[a]);
                            }
                        }
                    }
                    lemma_entries_map(entries@);
                    assert forall|x: Seq<char>| #[trigger] entries_map(entries@).contains_key(x)
                        == before.arrays.insert(name@, ty@).contains_key(x) by {
                        if x == name@ {
                            assert(entries@[k as int].0@ == x);
                        }
                        if before.arrays.contains_key(x) && x != name@ {
                            assert(entries_map(old_entries).contains_key(x));
                            let w = choose|w: int| 0 <= w < old_entries.len() && old_entries[w].0@ == x;
                            assert(entries@[w] == old_entries[w]);
                        }
                        if entries_map(entries@).contains_key(x) && x != name@ {
                            let w = choose|w: int| 0 <= w < entries@.len() && entries@[w].0@ == x;
                            assert(entries@[w] == old_entries[w]);
                            assert(entries_map(old_entries).contains_key(x));
                        }
                    }
                    assert forall|x: Seq<char>| #[trigger] entries_map(entries@).contains_key(x) implies
                        entries_map(entries@)[x] == before.arrays.insert(name@, ty@)[x] by {
                        let w = choose|w: int| 0 <= w < entries@.len() && entries@[w].0@ == x;
                        if w != k as int {
                            assert(entries@[w] == old_entries[w]);
                        }
                    }
                    assert(entries_map(entries@) =~= before.arrays.insert(name@, ty@));
                }
                self.array_elem_types = entries;
            },
            None => {
                let mut entries: Vec<(String, Type)> = Vec::new();
                std::mem::swap(&mut entries, &mut self.array_elem_types);
                let ghost old_entries = entries@;
                entries.push((key, ty));
                proof {
                    assert(entries@.drop_last() =~= old_entries);
                    assert(distinct_names(entries@));
                    lemma_entries_map(entries@);
                    assert(entries_map(entries@) == before.arrays.insert(name@, ty@));
                }
                self.array_elem_types = entries;
            },
        }
        proof {
            assert(self@.scopes =~= before.scopes);
        }
    }

    /// The element type recorded for an array, if any.
    pub fn get_array_elem_type(&self, name: &str) -> (r: Option<&Type>)
        ensures
            match r {
                Some(t) => self@.array_type(name@) == Some(t@),
                None => self@.array_type(name@) is None,
            },
    {
        proof {
            use_type_invariant(self);
        }
        let key = name.to_owned();
        let found = find_entry(&self.array_elem_types, &key);
        proof {
            lemma_entries_map(self.array_elem_types@);
        }
        match found {
            Some(k) => Some(&self.array_elem_types[k].1),
            None => None,
        }
    }
}

// ---------------------------------------------------------------------
// Laws of the symbol table
// ---------------------------------------------------------------------

/// A name declared successfully is found again by a lookup, with the symbol
/// it was declared with.
pub proof fn law_lookup_after_insert(t: SpecTable, name: Seq<char>, sym: SpecSymbol)
    requires
        t.insert(name, sym).1 is None,
    ensures
        t.insert(name, sym).0.lookup(name) == Some(sym),
{
    let t2 = t.insert(name, sym).0;
    assert(t2.scopes.last() == t.scopes.last().insert(name, sym));
}

/// Declaring one name leaves what every other name denotes unchanged.
pub proof fn law_insert_keeps_other_names(t: SpecTable, name: Seq<char>, sym: SpecSymbol, other: Seq<char>)
    requires
        other != name,
    ensures
        t.insert(name, sym).0.lookup(other) == t.lookup(other),
{
    let t2 = t.insert(name, sym).0;
    if t.insert(name, sym).1 is None {
        assert(t2.scopes.drop_last() =~= t.scopes.drop_last());
        assert(t2.scopes.last().contains_key(other) == t.scopes.last().contains_key(other));
    }
}

/// A refused declaration leaves the table unchanged.
pub proof fn law_refused_insert_unchanged(t: SpecTable, name: Seq<char>, sym: SpecSymbol)
    requires
        t.insert(name, sym).1 is Some,
    ensures
        t.insert(name, sym).0 == t,
{
}

/// Opening a scope and closing it again gives back the same table.
pub proof fn law_enter_exit(t: SpecTable)
    ensures
        t.enter().exit() == t,
{
    assert(t.enter().scopes.drop_last() =~= t.scopes);
}

/// Opening a scope changes what no name denotes.
pub proof fn law_enter_keeps_lookup(t: SpecTable, name: Seq<char>)
    ensures
        t.enter().lookup(name) == t.lookup(name),
{
    assert(t.enter().scopes.drop_last() =~= t.scopes);
}

/// In a freshly opened scope any name can be declared, even one that an
/// outer scope declares (it is then shadowed).
pub proof fn law_shadowing(t: SpecTable, name: Seq<char>, sym: SpecSymbol)
    ensures
        t.enter().insert(name, sym).1 is None,
        t.enter().insert(name, sym).0.lookup(name) == Some(sym),
{
    law_lookup_after_insert(t.enter(), name, sym);
}

/// The element type recorded for an array is the last one set.
pub proof fn law_array_type_after_set(t: SpecTable, name: Seq<char>, ty: SpecType, other: Seq<char>)
    ensures
        t.set_array(name, ty).array_type(name) == Some(ty),
        other != name ==> t.set_array(name, ty).array_type(other) == t.array_type(other),
        t.set_array(name, ty).lookup(other) == t.lookup(other),
{
}

/// The table after declaring each of `decls` in turn (refused declarations
/// leave it unchanged).
pub open spec fn insert_all(t: SpecTable, decls: Seq<(Seq<char>, SpecSymbol)>) -> SpecTable
    decreases decls.len(),
{
    if decls.len() == 0 {
        t
    } else {
        insert_all(t, decls.drop_last()).insert(decls.last().0, decls.last().1).0
    }
}

proof fn lemma_insert_all_inner(t: SpecTable, decls: Seq<(Seq<char>, SpecSymbol)>)
    ensures
        insert_all(t.enter(), decls).scopes.len() == t.scopes.len() + 1,
        insert_all(t.enter(), decls).scopes.drop_last() == t.scopes,
        insert_all(t.enter(), decls).arrays == t.arrays,
    decreases decls.len(),
{
    if decls.len() == 0 {
        assert(t.enter().scopes.drop_last() =~= t.scopes);
    } else {
        lemma_insert_all_inner(t, decls.drop_last());
        let u = insert_all(t.enter(), decls.drop_last());
        let u2 = u.insert(decls.last().0, decls.last().1).0;
        assert(u2.scopes.drop_last() =~= u.scopes.drop_last());
    }
}

/// Closing a scope undoes every declaration made in it since it was
/// opened: the table is the one before the scope was opened, so every
/// name denotes again what it denoted then (shadowed outer declarations
/// are visible again).
pub proof fn law_exit_discards_scope(t: SpecTable, decls: Seq<(Seq<char>, SpecSymbol)>, name: Seq<char>)
    ensures
        insert_all(t.enter(), decls).exit() == t,
        insert_all(t.enter(), decls).exit().lookup(name) == t.lookup(name),
{
    lemma_insert_all_inner(t, decls);
    let u = insert_all(t.enter(), decls);
    assert(u.exit().scopes =~= t.scopes);
}

} // verus!
