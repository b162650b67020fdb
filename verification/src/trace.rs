//! Wake-ups in words: which dependency it was that woke a reactor.
use vstd::prelude::*;
use vstd::string::StringExecFns;

use crate::dep::Dep;

verus! {

impl Dep {
    /// What stands before the name of the watched type.
    pub open spec fn lead(self) -> Seq<char> {
        match self {
            Dep::Resource(_) => "resource "@,
            Dep::ResourceValue(_) => "projected value of resource "@,
            Dep::ResourcePresence(_) => "presence of resource "@,
            Dep::Component(..) => "component "@,
            Dep::ComponentValue(..) => "projected value of component "@,
            Dep::Presence(..) => "presence of "@,
            Dep::Components(_) => "components "@,
            Dep::Message(_) => "messages of "@,
            Dep::Asset { .. } => "asset "@,
            Dep::Related { .. } => ""@,
            Dep::Ancestor(_) => "nearest ancestor with "@,
            Dep::AncestorValue(_) => "projected value of nearest ancestor with "@,
        }
    }

    /// The dependency in words. `name` is that of the watched type; `other` is the
    /// name of the relation, or the asset's id, where there is one.
    pub open spec fn words(self, name: Seq<char>, other: Seq<char>) -> Seq<char> {
        match self {
            Dep::Asset { .. } => self.lead() + name + " ("@ + other + ")"@,
            Dep::Related { .. } => self.lead() + name + " on entities related via "@ + other,
            _ => self.lead() + name,
        }
    }

    fn lead_of(&self) -> (r: &'static str)
        ensures
            r@ == self.lead(),
    {
        match *self {
            Dep::Resource(_) => "resource ",
            Dep::ResourceValue(_) => "projected value of resource ",
            Dep::ResourcePresence(_) => "presence of resource ",
            Dep::Component(..) => "component ",
            Dep::ComponentValue(..) => "projected value of component ",
            Dep::Presence(..) => "presence of ",
            Dep::Components(_) => "components ",
            Dep::Message(_) => "messages of ",
            Dep::Asset { .. } => "asset ",
            Dep::Related { .. } => "",
            Dep::Ancestor(_) => "nearest ancestor with ",
            Dep::AncestorValue(_) => "projected value of nearest ancestor with ",
        }
    }

    /// Tell the dependency in words.
    pub fn describe(&self, name: &str, other: &str) -> (r: String)
        ensures
            r@ == self.words(name@, other@),
    {
        let mut r = self.lead_of().to_owned();
        r.append(name);
        match *self {
            Dep::Asset { .. } => {
                r.append(" (");
                r.append(other);
                r.append(")");
            },
            Dep::Related { .. } => {
                r.append(" on entities related via ");
                r.append(other);
            },
            _ => {},
        }
        r
    }
}

} // verus!
