//! Symbols: their validity, their qualified names, and the rule that decides
//! the context of a bare name.

use crate::error::WolframError;
use crate::registry::{is_system_name, is_system_symbol};
use vstd::prelude::*;
use vstd::string::{StrSliceExecFns, StringExecFns};

verus! {

/// The character that parts a namespace from a name.
pub open spec fn separator() -> char {
    '`'
}

/// Tells whether a character may stand in a namespace or a name.
pub open spec fn is_symbol_char(c: char) -> bool {
    ('0' <= c <= '9') || ('a' <= c <= 'z') || ('A' <= c <= 'Z') || c == separator()
}

/// A text is a valid namespace or name when each of its characters is an
/// ASCII letter, an ASCII digit or the separator.
pub open spec fn valid_name(s: Seq<char>) -> bool {
    forall|i: int| 0 <= i < s.len() ==> is_symbol_char(#[trigger] s[i])
}

/// The full name of a symbol: the bare name in the implicit system context,
/// else namespace, separator and name.
pub open spec fn qualified_name(namespace: Seq<char>, name: Seq<char>) -> Seq<char> {
    if namespace.len() == 0 {
        name
    } else {
        namespace + seq![separator()] + name
    }
}

/// The qualified form of a bare name: a name that holds the separator or that
/// the system registry lists stays as it is, any other gets the namespace
/// and the separator in front.
pub open spec fn qualify_spec(name: Seq<char>, namespace: Seq<char>) -> Seq<char> {
    if name.contains(separator()) || is_system_name(name) {
        name
    } else {
        namespace + seq![separator()] + name
    }
}

/// Qualifying a qualified name changes nothing.
pub proof fn lemma_qualify_idempotent(name: Seq<char>, namespace: Seq<char>)
    ensures
        qualify_spec(qualify_spec(name, namespace), namespace) == qualify_spec(name, namespace),
        name.contains(separator()) ==> qualify_spec(name, namespace) == name,
{
    if !(name.contains(separator()) || is_system_name(name)) {
        let q = namespace + seq![separator()] + name;
        assert(q[namespace.len() as int] == separator());
    }
}

/// The qualified form depends on the name and the namespace alone: the same
/// bare name is qualified to the same full name each time.
pub proof fn lemma_qualify_deterministic(first: Seq<char>, second: Seq<char>, namespace: Seq<char>)
    requires
        first == second,
    ensures
        qualify_spec(first, namespace) == qualify_spec(second, namespace),
{
}

/// Tells whether a text holds the separator.
pub fn has_separator(name: &str) -> (r: bool)
    ensures
        r == name@.contains(separator()),
{
    let n = name.unicode_len();
    let mut i: usize = 0;
    while i < n
        invariant
            i <= n,
            n == name@.len(),
            forall|j: int| 0 <= j < i ==> name@[j] != separator(),
        decreases n - i,
    {
        if name.get_char(i) == '`' {
            return true;
        }
        i += 1;
    }
    false
}

/// Qualifies a bare name with the given namespace, as `qualify_spec` says.
pub fn qualify(name: &str, namespace: &str) -> (r: String)
    ensures
        r@ == qualify_spec(name@, namespace@),
{
    if has_separator(name) || is_system_symbol(name) {
        String::from_str(name)
    } else {
        proof {
            reveal_strlit("`");
        }
        let mut r = String::from_str(namespace);
        r.append("`");
        r.append(name);
        assert("`"@ =~= seq![separator()]);
        r
    }
}

/// A symbol of the Wolfram Language.
#[derive(Debug, PartialEq, Eq)]
pub struct WolframSymbol {
    namespace: String,
    name: String,
}

impl WolframSymbol {
    #[verifier::type_invariant]
    spec fn well_formed(self) -> bool {
        valid_name(self.namespace@) && valid_name(self.name@)
    }

    /// The namespace; empty for the implicit system context.
    pub closed spec fn namespace_text(self) -> Seq<char> {
        self.namespace@
    }

    /// The name.
    pub closed spec fn name_text(self) -> Seq<char> {
        self.name@
    }

    /// The full name under which the symbol is encoded.
    pub open spec fn full_name(self) -> Seq<char> {
        qualified_name(self.namespace_text(), self.name_text())
    }

    /// Tells whether a text is a valid namespace or name.
    pub fn is_valid(name: &str) -> (r: bool)
        ensures
            r == valid_name(name@),
    {
        let n = name.unicode_len();
        let mut i: usize = 0;
        while i < n
            invariant
                i <= n,
                n == name@.len(),
                forall|j: int| 0 <= j < i ==> is_symbol_char(#[trigger] name@[j]),
            decreases n - i,
        {
            let c = name.get_char(i);
            let ok = ('0' <= c && c <= '9') || ('a' <= c && c <= 'z') || ('A' <= c && c <= 'Z')
                || c == '`';
            if !ok {
                return false;
            }
            i += 1;
        }
        true
    }

    /// Makes the symbol `name` of the context `namespace`. Fails with
    /// `InvalidSymbol`, holding the offending text, when the namespace or the
    /// name is not valid; the namespace is looked at first.
    pub fn new(namespace: &str, name: &str) -> (r: Result<WolframSymbol, WolframError>)
        ensures
            match r {
                Ok(s) => valid_name(namespace@) && valid_name(name@) && s.namespace_text()
                    == namespace@ && s.name_text() == name@,
                Err(WolframError::InvalidSymbol(t)) => if valid_name(namespace@) {
                    !valid_name(name@) && t@ == name@
                } else {
                    t@ == namespace@
                },
                Err(_) => false,
            },
    {
        if !Self::is_valid(namespace) {
            Err(WolframError::InvalidSymbol(String::from_str(namespace)))
        } else if !Self::is_valid(name) {
            Err(WolframError::InvalidSymbol(String::from_str(name)))
        } else {
            Ok(WolframSymbol { namespace: String::from_str(namespace), name: String::from_str(name) })
        }
    }

    /// Makes the symbol `name` of the context `Global`.
    pub fn global(name: &str) -> (r: Result<WolframSymbol, WolframError>)
        ensures
            match r {
                Ok(s) => valid_name(name@) && s.namespace_text() == "Global"@ && s.name_text()
                    == name@,
                Err(WolframError::InvalidSymbol(t)) => !valid_name(name@) && t@ == name@,
                Err(_) => false,
            },
    {
        proof {
            reveal_strlit("Global");
        }
        Self::new("Global", name)
    }

    /// Makes the symbol `True` or `False` of the system context.
    pub fn boolean(value: bool) -> (s: WolframSymbol)
        ensures
            s.namespace_text().len() == 0,
            s.name_text() == if value {
                "True"@
            } else {
                "False"@
            },
    {
        proof {
            reveal_strlit("True");
            reveal_strlit("False");
        }
        let name = if value {
            "True"
        } else {
            "False"
        };
        WolframSymbol { namespace: String::new(), name: String::from_str(name) }
    }

    /// Makes the symbol `name` of the implicit system context.
    pub fn system(name: &str) -> (r: Result<WolframSymbol, WolframError>)
        ensures
            match r {
                Ok(s) => valid_name(name@) && s.namespace_text().len() == 0 && s.name_text()
                    == name@,
                Err(WolframError::InvalidSymbol(t)) => !valid_name(name@) && t@ == name@,
                Err(_) => false,
            },
    {
        if !Self::is_valid(name) {
            Err(WolframError::InvalidSymbol(String::from_str(name)))
        } else {
            Ok(WolframSymbol { namespace: String::new(), name: String::from_str(name) })
        }
    }

    /// Makes the symbol of the implicit system context with a name that is
    /// known to be valid.
    pub fn system_known(name: &str) -> (s: WolframSymbol)
        requires
            valid_name(name@),
        ensures
            s.namespace_text().len() == 0,
            s.name_text() == name@,
    {
        WolframSymbol { namespace: String::new(), name: String::from_str(name) }
    }

    /// Makes the symbol that a bare name stands for: a name that holds the
    /// separator is kept whole, a name of the system registry goes to the
    /// system context, any other to `Global`.
    pub fn resolve(name: &str) -> (r: Result<WolframSymbol, WolframError>)
        ensures
            match r {
                Ok(s) => valid_name(name@) && s.name_text() == name@ && s.namespace_text() == if name@.contains(
                    separator(),
                ) || is_system_name(name@) {
                    Seq::<char>::empty()
                } else {
                    "Global"@
                } && s.full_name() == qualify_spec(name@, "Global"@),
                Err(WolframError::InvalidSymbol(t)) => !valid_name(name@) && t@ == name@,
                Err(_) => false,
            },
    {
        proof {
            reveal_strlit("Global");
        }
        if has_separator(name) || is_system_symbol(name) {
            let r = Self::system(name);
            proof {
                if r is Ok {
                    assert(r->Ok_0.namespace_text() =~= Seq::<char>::empty());
                }
            }
            r
        } else {
            Self::global(name)
        }
    }

    /// The namespace; empty for the implicit system context.
    pub fn namespace(&self) -> (r: &str)
        ensures
            r@ == self.namespace_text(),
            valid_name(r@),
    {
        proof {
            use_type_invariant(self);
        }
        self.namespace.as_str()
    }

    /// The name.
    pub fn name(&self) -> (r: &str)
        ensures
            r@ == self.name_text(),
            valid_name(r@),
    {
        proof {
            use_type_invariant(self);
        }
        self.name.as_str()
    }

    /// The full name under which the symbol is encoded.
    pub fn qualified(&self) -> (r: String)
        ensures
            r@ == self.full_name(),
            valid_name(r@),
    {
        proof {
            use_type_invariant(self);
            reveal_strlit("`");
        }
        if self.namespace.as_str().is_empty() {
            self.name.clone()
        } else {
            let mut r = self.namespace.clone();
            r.append("`");
            r.append(self.name.as_str());
            assert("`"@ =~= seq![separator()]);
            r
        }
    }

}

impl Clone for WolframSymbol {
    fn clone(&self) -> (r: WolframSymbol)
        ensures
            r.namespace_text() == self.namespace_text(),
            r.name_text() == self.name_text(),
    {
        proof {
            use_type_invariant(self);
        }
        WolframSymbol { namespace: self.namespace.clone(), name: self.name.clone() }
    }
}

} // verus!
