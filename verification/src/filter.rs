//! The schematic filter of the database collaborator.
//!
//! A filter narrows a schematic query by owner identifiers and name
//! fragments; `build` renders it as the conjunction that is appended
//! to the base query. The rendering is pure string work and fully
//! verified; connecting to a database is no concern of this crate.

use vstd::prelude::*;

verus! {

use vstd::string::StringExecFns;

/// One row of the schematic table: its identifier and name.
#[derive(Debug, Clone)]
pub struct SchematicNode {
    pub id: i32,
    pub name: String,
}

/// A filter over schematics: by owner identifiers, by name fragments,
/// or both; an empty filter renders as the empty condition.
#[derive(Debug, Clone)]
pub struct SchematicFilter {
    pub user_id: Option<Vec<u32>>,
    pub name: Option<Vec<String>>,
}

/// The decimal digit character of a value below ten.
pub open spec fn spec_digit(d: nat) -> char {
    if d == 0 {
        '0'
    } else if d == 1 {
        '1'
    } else if d == 2 {
        '2'
    } else if d == 3 {
        '3'
    } else if d == 4 {
        '4'
    } else if d == 5 {
        '5'
    } else if d == 6 {
        '6'
    } else if d == 7 {
        '7'
    } else if d == 8 {
        '8'
    } else {
        '9'
    }
}

/// The decimal rendering of a value, most significant digit first.
pub open spec fn spec_decimal(v: nat) -> Seq<char>
    decreases v,
{
    if v < 10 {
        seq![spec_digit(v)]
    } else {
        spec_decimal(v / 10) + seq![spec_digit(v % 10)]
    }
}

/// One owner condition: `SN.NodeOwner = <id>`.
pub open spec fn spec_owner_clause(id: u32) -> Seq<char> {
    "SN.NodeOwner = "@ + spec_decimal(id as nat)
}

/// One name condition: `SN.NodeName LIKE '%<name>%'`.
pub open spec fn spec_name_clause(name: Seq<char>) -> Seq<char> {
    "SN.NodeName LIKE '%"@ + name + "%'"@
}

/// Owner conditions joined with ` OR `.
pub open spec fn spec_owner_disjunction(ids: Seq<u32>) -> Seq<char>
    decreases ids.len(),
{
    if ids.len() == 0 {
        Seq::<char>::empty()
    } else if ids.len() == 1 {
        spec_owner_clause(ids[0])
    } else {
        spec_owner_disjunction(ids.drop_last()) + " OR "@ + spec_owner_clause(ids.last())
    }
}

/// Name conditions joined with ` OR `.
pub open spec fn spec_name_disjunction(names: Seq<Seq<char>>) -> Seq<char>
    decreases names.len(),
{
    if names.len() == 0 {
        Seq::<char>::empty()
    } else if names.len() == 1 {
        spec_name_clause(names[0])
    } else {
        spec_name_disjunction(names.drop_last()) + " OR "@ + spec_name_clause(names.last())
    }
}

/// The condition a filter renders to: empty for the empty filter, else
/// `AND (...)` around the groups, themselves joined with `) AND (`.
pub open spec fn spec_build(user_id: Option<Seq<u32>>, name: Option<Seq<Seq<char>>>) -> Seq<char> {
    match (user_id, name) {
        (None, None) => Seq::<char>::empty(),
        (Some(ids), None) => "AND ("@ + spec_owner_disjunction(ids) + ")"@,
        (None, Some(ns)) => "AND ("@ + spec_name_disjunction(ns) + ")"@,
        (Some(ids), Some(ns)) => "AND ("@ + spec_owner_disjunction(ids) + ") AND ("@
            + spec_name_disjunction(ns) + ")"@,
    }
}

/// The view of a filter's name list.
pub open spec fn names_view(ns: Seq<String>) -> Seq<Seq<char>> {
    ns.map_values(|s: String| s@)
}

/// Renders a value below ten as its digit.
fn digit_str(d: u32) -> (r: &'static str)
    requires
        d < 10,
    ensures
        r@ == seq![spec_digit(d as nat)],
{
    proof {
        reveal_strlit("0");
        reveal_strlit("1");
        reveal_strlit("2");
        reveal_strlit("3");
        reveal_strlit("4");
        reveal_strlit("5");
        reveal_strlit("6");
        reveal_strlit("7");
        reveal_strlit("8");
        reveal_strlit("9");
    }
    if d == 0 {
        "0"
    } else if d == 1 {
        "1"
    } else if d == 2 {
        "2"
    } else if d == 3 {
        "3"
    } else if d == 4 {
        "4"
    } else if d == 5 {
        "5"
    } else if d == 6 {
        "6"
    } else if d == 7 {
        "7"
    } else if d == 8 {
        "8"
    } else {
        "9"
    }
}

/// Renders a value in decimal.
fn decimal_string(v: u32) -> (r: String)
    ensures
        r@ == spec_decimal(v as nat),
    decreases v,
{
    if v < 10 {
        digit_str(v).to_owned()
    } else {
        proof {
            assert(v / 10 < v) by (nonlinear_arith)
                requires
                    v >= 10,
            ;
        }
        let mut s = decimal_string(v / 10);
        s.append(digit_str(v % 10));
        s
    }
}

impl SchematicFilter {
    /// The empty filter, which narrows nothing.
    pub fn new() -> (r: SchematicFilter)
        ensures
            r.user_id is None,
            r.name is None,
    {
        SchematicFilter { user_id: None, name: None }
    }

    /// Narrows the filter to the given owner identifiers.
    pub fn user_id(self, user_id: Vec<&u32>) -> (r: SchematicFilter)
        ensures
            r.user_id matches Some(v) && v@.len() == user_id@.len() && (forall|i: int|
                0 <= i < v@.len() ==> (#[trigger] v@[i]) == user_id@[i]),
            r.name == self.name,
    {
        let mut ids: Vec<u32> = Vec::new();
        let mut i: usize = 0;
        while i < user_id.len()
            invariant
                i <= user_id.len(),
                ids@.len() == i,
                forall|j: int| 0 <= j < i ==> (#[trigger] ids@[j]) == user_id@[j],
            decreases user_id.len() - i,
        {
            ids.push(*user_id[i]);
            i = i + 1;
        }
        SchematicFilter { user_id: Some(ids), name: self.name }
    }

    /// Narrows the filter to the given name fragments.
    pub fn name(self, name: Vec<&String>) -> (r: SchematicFilter)
        ensures
            r.name matches Some(v) && v@.len() == name@.len() && (forall|i: int|
                0 <= i < v@.len() ==> (#[trigger] v@[i])@ == name@[i]@),
            r.user_id == self.user_id,
    {
        let mut ns: Vec<String> = Vec::new();
        let mut i: usize = 0;
        while i < name.len()
            invariant
                i <= name.len(),
                ns@.len() == i,
                forall|j: int| 0 <= j < i ==> (#[trigger] ns@[j])@ == name@[j]@,
            decreases name.len() - i,
        {
            ns.push(name[i].clone());
            i = i + 1;
        }
        SchematicFilter { user_id: self.user_id, name: Some(ns) }
    }

    /// Renders the filter as the condition text appended to the base
    /// query.
    pub fn build(self) -> (r: String)
        ensures
            r@ == spec_build(
                match self.user_id {
                    Some(v) => Some(v@),
                    None => None,
                },
                match self.name {
                    Some(v) => Some(names_view(v@)),
                    None => None,
                },
            ),
    {
        let has_ids = self.user_id.is_some();
        let has_names = self.name.is_some();
        if !has_ids && !has_names {
            return String::new();
        }
        let mut out: String = "AND (".to_owned();
        if let Some(ids) = &self.user_id {
            let mut i: usize = 0;
            while i < ids.len()
                invariant
                    i <= ids.len(),
                    i == 0 ==> out@ == "AND ("@,
                    i > 0 ==> out@ == "AND ("@ + spec_owner_disjunction(ids@.take(i as int)),
                decreases ids.len() - i,
            {
                proof {
                    assert(ids@.take(i as int + 1).drop_last() =~= ids@.take(i as int));
                    assert(ids@.take(i as int + 1).last() == ids@[i as int]);
                }
                if i > 0 {
                    out.append(" OR ");
                }
                out.append("SN.NodeOwner = ");
                let d = decimal_string(ids[i]);
                out.append(d.as_str());
                proof {
                    if i == 0 {
                        assert(ids@.take(1).len() == 1);
                        assert(out@ =~= "AND ("@ + spec_owner_disjunction(ids@.take(1)));
                    } else {
                        assert(out@ =~= "AND ("@ + spec_owner_disjunction(
                            ids@.take(i as int + 1),
                        ));
                    }
                }
                i = i + 1;
            }
            proof {
                assert(ids@.take(ids@.len() as int) =~= ids@);
                if ids@.len() == 0 {
                    assert(out@ =~= "AND ("@ + spec_owner_disjunction(ids@));
                }
            }
        }
        if let Some(ns) = &self.name {
            if has_ids {
                out.append(") AND (");
            }
            let ghost prefix = out@;
            let mut i: usize = 0;
            while i < ns.len()
                invariant
                    i <= ns.len(),
                    i == 0 ==> out@ == prefix,
                    i > 0 ==> out@ == prefix + spec_name_disjunction(names_view(ns@).take(i as int)),
                decreases ns.len() - i,
            {
                proof {
                    assert(names_view(ns@).take(i as int + 1).drop_last() =~= names_view(
                        ns@,
                    ).take(i as int));
                    assert(names_view(ns@).take(i as int + 1).last() == ns@[i as int]@);
                }
                if i > 0 {
                    out.append(" OR ");
                }
                out.append("SN.NodeName LIKE '%");
                out.append(ns[i].as_str());
                out.append("%'");
                proof {
                    if i == 0 {
                        assert(names_view(ns@).take(1).len() == 1);
                        assert(out@ =~= prefix + spec_name_disjunction(names_view(ns@).take(1)));
                    } else {
                        assert(out@ =~= prefix + spec_name_disjunction(
                            names_view(ns@).take(i as int + 1),
                        ));
                    }
                }
                i = i + 1;
            }
            proof {
                assert(names_view(ns@).take(ns@.len() as int) =~= names_view(ns@));
                if ns@.len() == 0 {
                    assert(out@ =~= prefix + spec_name_disjunction(names_view(ns@)));
                }
            }
        }
        out.append(")");
        proof {
            match (self.user_id, self.name) {
                (Some(ids), None) => {
                    assert(out@ =~= spec_build(Some(ids@), None));
                },
                (None, Some(ns)) => {
                    assert(out@ =~= spec_build(None, Some(names_view(ns@))));
                },
                (Some(ids), Some(ns)) => {
                    assert(out@ =~= spec_build(Some(ids@), Some(names_view(ns@))));
                },
                (None, None) => {},
            }
        }
        out
    }
}

} // verus!
