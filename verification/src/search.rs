//! Quick search: the catalog of nodes that can be spawned, the rows shown
//! (catalog entries and calls of the user's functions), which rows match a
//! query and in what order, and the keyboard selection.
use vstd::prelude::*;

use crate::node::{spec_title, NodeKind};
use crate::text::{chars_of, owned, push_str};
use crate::types::{CompareOp, GraphId};
use crate::workspace::Workspace;

verus! {

/// The node kinds that the catalog offers.
#[derive(Clone, Copy, PartialEq, Eq, Structural, Debug)]
pub enum CatalogItem {
    Number,
    Add,
    Sub,
    Mul,
    Div,
    Compare,
    Branch,
    And,
    Or,
    Not,
    Start,
    SetVariable,
    GetVariable,
    WhileLoop,
    Print,
    FunctionDef,
    FunctionCall,
    Return,
}

/// Whether `k` is the fresh node that a catalog item spawns.
pub open spec fn spawns(item: CatalogItem, k: NodeKind) -> bool {
    match item {
        CatalogItem::Number => k matches NodeKind::Number(v) && v@ == "0.0"@,
        CatalogItem::Add => k is Add,
        CatalogItem::Sub => k is Sub,
        CatalogItem::Mul => k is Mul,
        CatalogItem::Div => k is Div,
        CatalogItem::Compare => k == NodeKind::Compare(CompareOp::GreaterThan),
        CatalogItem::Branch => k is Branch,
        CatalogItem::And => k is And,
        CatalogItem::Or => k is Or,
        CatalogItem::Not => k is Not,
        CatalogItem::Start => k is Start,
        CatalogItem::SetVariable => k matches NodeKind::SetVariable(v) && v@ == "x"@,
        CatalogItem::GetVariable => k matches NodeKind::GetVariable(v) && v@ == "x"@,
        CatalogItem::WhileLoop => k is WhileLoop,
        CatalogItem::Print => k is Print,
        CatalogItem::FunctionDef => k matches NodeKind::FunctionDef { name, params } && name@
            == "my_func"@ && params@ == "a, b"@,
        CatalogItem::FunctionCall => k matches NodeKind::FunctionCall { name } && name@
            == "my_func"@,
        CatalogItem::Return => k is Return,
    }
}

impl CatalogItem {
    /// A fresh node of this item.
    pub fn make(&self) -> (k: NodeKind)
        ensures
            spawns(*self, k),
    {
        match self {
            CatalogItem::Number => NodeKind::Number(owned("0.0")),
            CatalogItem::Add => NodeKind::Add,
            CatalogItem::Sub => NodeKind::Sub,
            CatalogItem::Mul => NodeKind::Mul,
            CatalogItem::Div => NodeKind::Div,
            CatalogItem::Compare => NodeKind::Compare(CompareOp::GreaterThan),
            CatalogItem::Branch => NodeKind::Branch,
            CatalogItem::And => NodeKind::And,
            CatalogItem::Or => NodeKind::Or,
            CatalogItem::Not => NodeKind::Not,
            CatalogItem::Start => NodeKind::Start,
            CatalogItem::SetVariable => NodeKind::SetVariable(owned("x")),
            CatalogItem::GetVariable => NodeKind::GetVariable(owned("x")),
            CatalogItem::WhileLoop => NodeKind::WhileLoop,
            CatalogItem::Print => NodeKind::Print,
            CatalogItem::FunctionDef => NodeKind::FunctionDef {
                name: owned("my_func"),
                params: owned("a, b"),
            },
            CatalogItem::FunctionCall => NodeKind::FunctionCall { name: owned("my_func") },
            CatalogItem::Return => NodeKind::Return,
        }
    }
}

/// One catalog entry: label, category, search keywords, and what it
/// spawns.
#[derive(Clone, Copy, Debug)]
pub struct SearchEntry {
    pub label: &'static str,
    pub category: &'static str,
    pub keywords: &'static str,
    pub item: CatalogItem,
}

/// A catalog entry as text.
pub open spec fn entry_view(e: SearchEntry) -> (Seq<char>, Seq<char>, Seq<char>, CatalogItem) {
    (e.label@, e.category@, e.keywords@, e.item)
}

/// The catalog, in display order.
pub open spec fn catalog() -> Seq<(Seq<char>, Seq<char>, Seq<char>, CatalogItem)> {
    seq![
        ("Number"@, "Numbers"@, "number literal value const"@, CatalogItem::Number),
        ("Math (Add)"@, "Numbers"@, "math add plus sum +"@, CatalogItem::Add),
        ("Math (Subtract)"@, "Numbers"@, "math sub subtract minus -"@, CatalogItem::Sub),
        ("Math (Multiply)"@, "Numbers"@, "math mul multiply times *"@, CatalogItem::Mul),
        ("Math (Divide)"@, "Numbers"@, "math div divide /"@, CatalogItem::Div),
        ("Compare"@, "Logic"@, "compare greater less equal condition"@, CatalogItem::Compare),
        ("If / Else"@, "Logic"@, "branch if else condition"@, CatalogItem::Branch),
        ("Logic (AND)"@, "Logic"@, "and logic boolean"@, CatalogItem::And),
        ("Logic (OR)"@, "Logic"@, "or logic boolean"@, CatalogItem::Or),
        ("Logic (NOT)"@, "Logic"@, "not logic invert boolean"@, CatalogItem::Not),
        ("Start"@, "Flow"@, "start entry begin main"@, CatalogItem::Start),
        ("Set Variable"@, "Flow"@, "set variable assign store"@, CatalogItem::SetVariable),
        ("Get Variable"@, "Flow"@, "get variable read fetch"@, CatalogItem::GetVariable),
        ("While Loop"@, "Flow"@, "while loop repeat iterate"@, CatalogItem::WhileLoop),
        ("Print"@, "Flow"@, "print log output console"@, CatalogItem::Print),
        ("Function Def"@, "Functions"@, "function def define declare"@, CatalogItem::FunctionDef),
        ("Call Function"@, "Functions"@, "call function invoke run"@, CatalogItem::FunctionCall),
        ("Return"@, "Functions"@, "return exit result"@, CatalogItem::Return),
    ]
}

/// Two different catalog positions hold different labels.
proof fn lemma_catalog_pair(a: int, b: int)
    requires
        0 <= a < b < catalog().len(),
    ensures
        catalog()[a].0 != catalog()[b].0,
{
    reveal_strlit("Number");
    reveal_strlit("Math (Add)");
    reveal_strlit("Math (Subtract)");
    reveal_strlit("Math (Multiply)");
    reveal_strlit("Math (Divide)");
    reveal_strlit("Compare");
    reveal_strlit("If / Else");
    reveal_strlit("Logic (AND)");
    reveal_strlit("Logic (OR)");
    reveal_strlit("Logic (NOT)");
    reveal_strlit("Start");
    reveal_strlit("Set Variable");
    reveal_strlit("Get Variable");
    reveal_strlit("While Loop");
    reveal_strlit("Print");
    reveal_strlit("Function Def");
    reveal_strlit("Call Function");
    reveal_strlit("Return");
    if a == 0 {
        if b == 1 {
            assert(catalog()[0].0.len() != catalog()[1].0.len());
        } else if b == 2 {
            assert(catalog()[0].0.len() != catalog()[2].0.len());
        } else if b == 3 {
            assert(catalog()[0].0.len() != catalog()[3].0.len());
        } else if b == 4 {
            assert(catalog()[0].0.len() != catalog()[4].0.len());
        } else if b == 5 {
            assert(catalog()[0].0.len() != catalog()[5].0.len());
        } else if b == 6 {
            assert(catalog()[0].0.len() != catalog()[6].0.len());
        } else if b == 7 {
            assert(catalog()[0].0.len() != catalog()[7].0.len());
        } else if b == 8 {
            assert(catalog()[0].0.len() != catalog()[8].0.len());
        } else if b == 9 {
            assert(catalog()[0].0.len() != catalog()[9].0.len());
        } else if b == 10 {
            assert(catalog()[0].0.len() != catalog()[10].0.len());
        } else if b == 11 {
            assert(catalog()[0].0.len() != catalog()[11].0.len());
        } else if b == 12 {
            assert(catalog()[0].0.len() != catalog()[12].0.len());
        } else if b == 13 {
            assert(catalog()[0].0.len() != catalog()[13].0.len());
        } else if b == 14 {
            assert(catalog()[0].0.len() != catalog()[14].0.len());
        } else if b == 15 {
            assert(catalog()[0].0.len() != catalog()[15].0.len());
        } else if b == 16 {
            assert(catalog()[0].0.len() != catalog()[16].0.len());
        } else if b == 17 {
            assert(catalog()[0].0[0] != catalog()[17].0[0]);
        }
    } else if a == 1 {
        if b == 2 {
            assert(catalog()[1].0.len() != catalog()[2].0.len());
        } else if b == 3 {
            assert(catalog()[1].0.len() != catalog()[3].0.len());
        } else if b == 4 {
            assert(catalog()[1].0.len() != catalog()[4].0.len());
        } else if b == 5 {
            assert(catalog()[1].0.len() != catalog()[5].0.len());
        } else if b == 6 {
            assert(catalog()[1].0.len() != catalog()[6].0.len());
        } else if b == 7 {
            assert(catalog()[1].0.len() != catalog()[7].0.len());
        } else if b == 8 {
            assert(catalog()[1].0[0] != catalog()[8].0[0]);
        } else if b == 9 {
            assert(catalog()[1].0.len() != catalog()[9].0.len());
        } else if b == 10 {
            assert(catalog()[1].0.len() != catalog()[10].0.len());
        } else if b == 11 {
            assert(catalog()[1].0.len() != catalog()[11].0.len());
        } else if b == 12 {
            assert(catalog()[1].0.len() != catalog()[12].0.len());
        } else if b == 13 {
            assert(catalog()[1].0[0] != catalog()[13].0[0]);
        } else if b == 14 {
            assert(catalog()[1].0.len() != catalog()[14].0.len());
        } else if b == 15 {
            assert(catalog()[1].0.len() != catalog()[15].0.len());
        } else if b == 16 {
            assert(catalog()[1].0.len() != catalog()[16].0.len());
        } else if b == 17 {
            assert(catalog()[1].0.len() != catalog()[17].0.len());
        }
    } else if a == 2 {
        if b == 3 {
            assert(catalog()[2].0[6] != catalog()[3].0[6]);
        } else if b == 4 {
            assert(catalog()[2].0.len() != catalog()[4].0.len());
        } else if b == 5 {
            assert(catalog()[2].0.len() != catalog()[5].0.len());
        } else if b == 6 {
            assert(catalog()[2].0.len() != catalog()[6].0.len());
        } else if b == 7 {
            assert(catalog()[2].0.len() != catalog()[7].0.len());
        } else if b == 8 {
            assert(catalog()[2].0.len() != catalog()[8].0.len());
        } else if b == 9 {
            assert(catalog()[2].0.len() != catalog()[9].0.len());
        } else if b == 10 {
            assert(catalog()[2].0.len() != catalog()[10].0.len());
        } else if b == 11 {
            assert(catalog()[2].0.len() != catalog()[11].0.len());
        } else if b == 12 {
            assert(catalog()[2].0.len() != catalog()[12].0.len());
        } else if b == 13 {
            assert(catalog()[2].0.len() != catalog()[13].0.len());
        } else if b == 14 {
            assert(catalog()[2].0.len() != catalog()[14].0.len());
        } else if b == 15 {
            assert(catalog()[2].0.len() != catalog()[15].0.len());
        } else if b == 16 {
            assert(catalog()[2].0.len() != catalog()[16].0.len());
        } else if b == 17 {
            assert(catalog()[2].0.len() != catalog()[17].0.len());
        }
    } else if a == 3 {
        if b == 4 {
            assert(catalog()[3].0.len() != catalog()[4].0.len());
        } else if b == 5 {
            assert(catalog()[3].0.len() != catalog()[5].0.len());
        } else if b == 6 {
            assert(catalog()[3].0.len() != catalog()[6].0.len());
        } else if b == 7 {
            assert(catalog()[3].0.len() != catalog()[7].0.len());
        } else if b == 8 {
            assert(catalog()[3].0.len() != catalog()[8].0.len());
        } else if b == 9 {
            assert(catalog()[3].0.len() != catalog()[9].0.len());
        } else if b == 10 {
            assert(catalog()[3].0.len() != catalog()[10].0.len());
        } else if b == 11 {
            assert(catalog()[3].0.len() != catalog()[11].0.len());
        } else if b == 12 {
            assert(catalog()[3].0.len() != catalog()[12].0.len());
        } else if b == 13 {
            assert(catalog()[3].0.len() != catalog()[13].0.len());
        } else if b == 14 {
            assert(catalog()[3].0.len() != catalog()[14].0.len());
        } else if b == 15 {
            assert(catalog()[3].0.len() != catalog()[15].0.len());
        } else if b == 16 {
            assert(catalog()[3].0.len() != catalog()[16].0.len());
        } else if b == 17 {
            assert(catalog()[3].0.len() != catalog()[17].0.len());
        }
    } else if a == 4 {
        if b == 5 {
            assert(catalog()[4].0.len() != catalog()[5].0.len());
        } else if b == 6 {
            assert(catalog()[4].0.len() != catalog()[6].0.len());
        } else if b == 7 {
            assert(catalog()[4].0.len() != catalog()[7].0.len());
        } else if b == 8 {
            assert(catalog()[4].0.len() != catalog()[8].0.len());
        } else if b == 9 {
            assert(catalog()[4].0.len() != catalog()[9].0.len());
        } else if b == 10 {
            assert(catalog()[4].0.len() != catalog()[10].0.len());
        } else if b == 11 {
            assert(catalog()[4].0.len() != catalog()[11].0.len());
        } else if b == 12 {
            assert(catalog()[4].0.len() != catalog()[12].0.len());
        } else if b == 13 {
            assert(catalog()[4].0.len() != catalog()[13].0.len());
        } else if b == 14 {
            assert(catalog()[4].0.len() != catalog()[14].0.len());
        } else if b == 15 {
            assert(catalog()[4].0.len() != catalog()[15].0.len());
        } else if b == 16 {
            assert(catalog()[4].0[0] != catalog()[16].0[0]);
        } else if b == 17 {
            assert(catalog()[4].0.len() != catalog()[17].0.len());
        }
    } else if a == 5 {
        if b == 6 {
            assert(catalog()[5].0.len() != catalog()[6].0.len());
        } else if b == 7 {
            assert(catalog()[5].0.len() != catalog()[7].0.len());
        } else if b == 8 {
            assert(catalog()[5].0.len() != catalog()[8].0.len());
        } else if b == 9 {
            assert(catalog()[5].0.len() != catalog()[9].0.len());
        } else if b == 10 {
            assert(catalog()[5].0.len() != catalog()[10].0.len());
        } else if b == 11 {
            assert(catalog()[5].0.len() != catalog()[11].0.len());
        } else if b == 12 {
            assert(catalog()[5].0.len() != catalog()[12].0.len());
        } else if b == 13 {
            assert(catalog()[5].0.len() != catalog()[13].0.len());
        } else if b == 14 {
            assert(catalog()[5].0.len() != catalog()[14].0.len());
        } else if b == 15 {
            assert(catalog()[5].0.len() != catalog()[15].0.len());
        } else if b == 16 {
            assert(catalog()[5].0.len() != catalog()[16].0.len());
        } else if b == 17 {
            assert(catalog()[5].0.len() != catalog()[17].0.len());
        }
    } else if a == 6 {
        if b == 7 {
            assert(catalog()[6].0.len() != catalog()[7].0.len());
        } else if b == 8 {
            assert(catalog()[6].0.len() != catalog()[8].0.len());
        } else if b == 9 {
            assert(catalog()[6].0.len() != catalog()[9].0.len());
        } else if b == 10 {
            assert(catalog()[6].0.len() != catalog()[10].0.len());
        } else if b == 11 {
            assert(catalog()[6].0.len() != catalog()[11].0.len());
        } else if b == 12 {
            assert(catalog()[6].0.len() != catalog()[12].0.len());
        } else if b == 13 {
            assert(catalog()[6].0.len() != catalog()[13].0.len());
        } else if b == 14 {
            assert(catalog()[6].0.len() != catalog()[14].0.len());
        } else if b == 15 {
            assert(catalog()[6].0.len() != catalog()[15].0.len());
        } else if b == 16 {
            assert(catalog()[6].0.len() != catalog()[16].0.len());
        } else if b == 17 {
            assert(catalog()[6].0.len() != catalog()[17].0.len());
        }
    } else if a == 7 {
        if b == 8 {
            assert(catalog()[7].0.len() != catalog()[8].0.len());
        } else if b == 9 {
            assert(catalog()[7].0[7] != catalog()[9].0[7]);
        } else if b == 10 {
            assert(catalog()[7].0.len() != catalog()[10].0.len());
        } else if b == 11 {
            assert(catalog()[7].0.len() != catalog()[11].0.len());
        } else if b == 12 {
            assert(catalog()[7].0.len() != catalog()[12].0.len());
        } else if b == 13 {
            assert(catalog()[7].0.len() != catalog()[13].0.len());
        } else if b == 14 {
            assert(catalog()[7].0.len() != catalog()[14].0.len());
        } else if b == 15 {
            assert(catalog()[7].0.len() != catalog()[15].0.len());
        } else if b == 16 {
            assert(catalog()[7].0.len() != catalog()[16].0.len());
        } else if b == 17 {
            assert(catalog()[7].0.len() != catalog()[17].0.len());
        }
    } else if a == 8 {
        if b == 9 {
            assert(catalog()[8].0.len() != catalog()[9].0.len());
        } else if b == 10 {
            assert(catalog()[8].0.len() != catalog()[10].0.len());
        } else if b == 11 {
            assert(catalog()[8].0.len() != catalog()[11].0.len());
        } else if b == 12 {
            assert(catalog()[8].0.len() != catalog()[12].0.len());
        } else if b == 13 {
            assert(catalog()[8].0[0] != catalog()[13].0[0]);
        } else if b == 14 {
            assert(catalog()[8].0.len() != catalog()[14].0.len());
        } else if b == 15 {
            assert(catalog()[8].0.len() != catalog()[15].0.len());
        } else if b == 16 {
            assert(catalog()[8].0.len() != catalog()[16].0.len());
        } else if b == 17 {
            assert(catalog()[8].0.len() != catalog()[17].0.len());
        }
    } else if a == 9 {
        if b == 10 {
            assert(catalog()[9].0.len() != catalog()[10].0.len());
        } else if b == 11 {
            assert(catalog()[9].0.len() != catalog()[11].0.len());
        } else if b == 12 {
            assert(catalog()[9].0.len() != catalog()[12].0.len());
        } else if b == 13 {
            assert(catalog()[9].0.len() != catalog()[13].0.len());
        } else if b == 14 {
            assert(catalog()[9].0.len() != catalog()[14].0.len());
        } else if b == 15 {
            assert(catalog()[9].0.len() != catalog()[15].0.len());
        } else if b == 16 {
            assert(catalog()[9].0.len() != catalog()[16].0.len());
        } else if b == 17 {
            assert(catalog()[9].0.len() != catalog()[17].0.len());
        }
    } else if a == 10 {
        if b == 11 {
            assert(catalog()[10].0.len() != catalog()[11].0.len());
        } else if b == 12 {
            assert(catalog()[10].0.len() != catalog()[12].0.len());
        } else if b == 13 {
            assert(catalog()[10].0.len() != catalog()[13].0.len());
        } else if b == 14 {
            assert(catalog()[10].0[0] != catalog()[14].0[0]);
        } else if b == 15 {
            assert(catalog()[10].0.len() != catalog()[15].0.len());
        } else if b == 16 {
            assert(catalog()[10].0.len() != catalog()[16].0.len());
        } else if b == 17 {
            assert(catalog()[10].0.len() != catalog()[17].0.len());
        }
    } else if a == 11 {
        if b == 12 {
            assert(catalog()[11].0[0] != catalog()[12].0[0]);
        } else if b == 13 {
            assert(catalog()[11].0.len() != catalog()[13].0.len());
        } else if b == 14 {
            assert(catalog()[11].0.len() != catalog()[14].0.len());
        } else if b == 15 {
            assert(catalog()[11].0[0] != catalog()[15].0[0]);
        } else if b == 16 {
            assert(catalog()[11].0.len() != catalog()[16].0.len());
        } else if b == 17 {
            assert(catalog()[11].0.len() != catalog()[17].0.len());
        }
    } else if a == 12 {
        if b == 13 {
            assert(catalog()[12].0.len() != catalog()[13].0.len());
        } else if b == 14 {
            assert(catalog()[12].0.len() != catalog()[14].0.len());
        } else if b == 15 {
            assert(catalog()[12].0[0] != catalog()[15].0[0]);
        } else if b == 16 {
            assert(catalog()[12].0.len() != catalog()[16].0.len());
        } else if b == 17 {
            assert(catalog()[12].0.len() != catalog()[17].0.len());
        }
    } else if a == 13 {
        if b == 14 {
            assert(catalog()[13].0.len() != catalog()[14].0.len());
        } else if b == 15 {
            assert(catalog()[13].0.len() != catalog()[15].0.len());
        } else if b == 16 {
            assert(catalog()[13].0.len() != catalog()[16].0.len());
        } else if b == 17 {
            assert(catalog()[13].0.len() != catalog()[17].0.len());
        }
    } else if a == 14 {
        if b == 15 {
            assert(catalog()[14].0.len() != catalog()[15].0.len());
        } else if b == 16 {
            assert(catalog()[14].0.len() != catalog()[16].0.len());
        } else if b == 17 {
            assert(catalog()[14].0.len() != catalog()[17].0.len());
        }
    } else if a == 15 {
        if b == 16 {
            assert(catalog()[15].0.len() != catalog()[16].0.len());
        } else if b == 17 {
            assert(catalog()[15].0.len() != catalog()[17].0.len());
        }
    } else if a == 16 {
        if b == 17 {
            assert(catalog()[16].0.len() != catalog()[17].0.len());
        }
    }
}

/// The catalog's labels are all different, and each entry spawns a node
/// whose title is the entry's label.
pub proof fn law_catalog_labels(i: int, j: int, k: NodeKind)
    requires
        0 <= i < catalog().len(),
        0 <= j < catalog().len(),
    ensures
        i != j ==> catalog()[i].0 != catalog()[j].0,
        spawns(catalog()[i].3, k) ==> spec_title(k) == catalog()[i].0,
{
    if i < j {
        lemma_catalog_pair(i, j);
    } else if j < i {
        lemma_catalog_pair(j, i);
    }
}

/// The catalog of spawnable nodes.
pub fn search_catalog() -> (r: Vec<SearchEntry>)
    ensures
        r@.map_values(|e: SearchEntry| entry_view(e)) == catalog(),
{
    let r = vec![
        SearchEntry { label: "Number", category: "Numbers", keywords: "number literal value const", item: CatalogItem::Number },
        SearchEntry { label: "Math (Add)", category: "Numbers", keywords: "math add plus sum +", item: CatalogItem::Add },
        SearchEntry { label: "Math (Subtract)", category: "Numbers", keywords: "math sub subtract minus -", item: CatalogItem::Sub },
        SearchEntry { label: "Math (Multiply)", category: "Numbers", keywords: "math mul multiply times *", item: CatalogItem::Mul },
        SearchEntry { label: "Math (Divide)", category: "Numbers", keywords: "math div divide /", item: CatalogItem::Div },
        SearchEntry { label: "Compare", category: "Logic", keywords: "compare greater less equal condition", item: CatalogItem::Compare },
        SearchEntry { label: "If / Else", category: "Logic", keywords: "branch if else condition", item: CatalogItem::Branch },
        SearchEntry { label: "Logic (AND)", category: "Logic", keywords: "and logic boolean", item: CatalogItem::And },
        SearchEntry { label: "Logic (OR)", category: "Logic", keywords: "or logic boolean", item: CatalogItem::Or },
        SearchEntry { label: "Logic (NOT)", category: "Logic", keywords: "not logic invert boolean", item: CatalogItem::Not },
        SearchEntry { label: "Start", category: "Flow", keywords: "start entry begin main", item: CatalogItem::Start },
        SearchEntry { label: "Set Variable", category: "Flow", keywords: "set variable assign store", item: CatalogItem::SetVariable },
        SearchEntry { label: "Get Variable", category: "Flow", keywords: "get variable read fetch", item: CatalogItem::GetVariable },
        SearchEntry { label: "While Loop", category: "Flow", keywords: "while loop repeat iterate", item: CatalogItem::WhileLoop },
        SearchEntry { label: "Print", category: "Flow", keywords: "print log output console", item: CatalogItem::Print },
        SearchEntry { label: "Function Def", category: "Functions", keywords: "function def define declare", item: CatalogItem::FunctionDef },
        SearchEntry { label: "Call Function", category: "Functions", keywords: "call function invoke run", item: CatalogItem::FunctionCall },
        SearchEntry { label: "Return", category: "Functions", keywords: "return exit result", item: CatalogItem::Return },
    ];
    proof {
        assert(r@.map_values(|e: SearchEntry| entry_view(e)) =~= catalog());
    }
    r
}

/// What a row spawns: a catalog node, or a call of a user function.
#[derive(Clone, Copy, PartialEq, Eq, Structural, Debug)]
pub enum SearchSpawn {
    Static(CatalogItem),
    Function(GraphId),
}

/// One row of quick search.
#[derive(Debug)]
pub struct SearchRow {
    pub label: String,
    pub category: &'static str,
    pub keywords: String,
    pub spawn: SearchSpawn,
}

/// A row as text.
pub open spec fn row_view(r: SearchRow) -> (Seq<char>, Seq<char>, Seq<char>, SearchSpawn) {
    (r.label@, r.category@, r.keywords@, r.spawn)
}

/// Rows as text.
pub open spec fn rows_view(rows: Seq<SearchRow>) -> Seq<(Seq<char>, Seq<char>, Seq<char>, SearchSpawn)> {
    rows.map_values(|r: SearchRow| row_view(r))
}

/// The lowercase form of a text, as `str::to_lowercase` gives it.
pub uninterp spec fn lowercase(s: Seq<char>) -> Seq<char>;

/// `str::to_lowercase`: the result is named by `lowercase` (Unicode
/// lowercase mapping); nothing more about it is stated here.
#[verifier::external_body]
fn to_lowercase(s: &str) -> (r: String)
    ensures
        r@ == lowercase(s@),
{
    s.to_lowercase()
}

/// The row of a catalog entry.
pub open spec fn catalog_row(e: (Seq<char>, Seq<char>, Seq<char>, CatalogItem)) -> (
    Seq<char>,
    Seq<char>,
    Seq<char>,
    SearchSpawn,
) {
    (e.0, e.1, e.2, SearchSpawn::Static(e.3))
}

/// The row of a user function.
pub open spec fn function_row(f: (GraphId, Seq<char>)) -> (Seq<char>, Seq<char>, Seq<char>, SearchSpawn) {
    ("ƒ "@ + f.1, "Functions"@, "function call "@ + lowercase(f.1), SearchSpawn::Function(f.0))
}

/// The rows of quick search: the catalog, then one row per user function.
pub open spec fn search_rows_spec(functions: Seq<(GraphId, Seq<char>)>) -> Seq<
    (Seq<char>, Seq<char>, Seq<char>, SearchSpawn),
> {
    catalog().map_values(|e: (Seq<char>, Seq<char>, Seq<char>, CatalogItem)| catalog_row(e))
        + functions.map_values(|f: (GraphId, Seq<char>)| function_row(f))
}

/// The quick-search rows for these user functions (id and name).
pub fn search_rows(functions: &Vec<(GraphId, String)>) -> (r: Vec<SearchRow>)
    ensures
        rows_view(r@) == search_rows_spec(functions@.map_values(|f: (GraphId, String)| (f.0, f.1@))),
{
    let entries = search_catalog();
    let mut r: Vec<SearchRow> = Vec::new();
    let mut i: usize = 0;
    let ghost cat = catalog().map_values(|e: (Seq<char>, Seq<char>, Seq<char>, CatalogItem)| catalog_row(e));
    proof {
        assert(rows_view(r@) =~= cat.take(0));
    }
    while i < entries.len()
        invariant
            i <= entries@.len(),
            entries@.map_values(|e: SearchEntry| entry_view(e)) == catalog(),
            cat == catalog().map_values(|e: (Seq<char>, Seq<char>, Seq<char>, CatalogItem)| catalog_row(e)),
            rows_view(r@) == cat.take(i as int),
            r@.len() == i,
            cat.len() == entries@.len(),
        decreases entries@.len() - i,
    {
        let e = entries[i];
        let ghost r0 = r@;
        r.push(SearchRow {
            label: owned(e.label),
            category: e.category,
            keywords: owned(e.keywords),
            spawn: SearchSpawn::Static(e.item),
        });
        proof {
            assert(entries@.map_values(|e: SearchEntry| entry_view(e))[i as int] == entry_view(e));
            assert(rows_view(r@)[i as int] == row_view(r@[i as int]));
            assert(cat[i as int] == catalog_row(catalog()[i as int]));
            assert forall|j: int| 0 <= j < i implies rows_view(r@)[j] == cat.take(i + 1)[j] by {
                assert(r@[j] == r0[j]);
                assert(rows_view(r0)[j] == cat.take(i as int)[j]);
            }
            assert(rows_view(r@) =~= cat.take(i + 1));
        }
        i = i + 1;
    }
    let ghost fs = functions@.map_values(|f: (GraphId, String)| (f.0, f.1@));
    let ghost frows = fs.map_values(|f: (GraphId, Seq<char>)| function_row(f));
    let mut k: usize = 0;
    proof {
        assert(cat.take(entries@.len() as int) =~= cat);
        assert(rows_view(r@) =~= cat + frows.take(0));
        assert(cat.len() == 18);
    }
    while k < functions.len()
        invariant
            k <= functions@.len(),
            fs == functions@.map_values(|f: (GraphId, String)| (f.0, f.1@)),
            frows == fs.map_values(|f: (GraphId, Seq<char>)| function_row(f)),
            rows_view(r@) == cat + frows.take(k as int),
            r@.len() == cat.len() + k,
        decreases functions@.len() - k,
    {
        let (gid, name) = (functions[k].0, &functions[k].1);
        let mut label = owned("ƒ ");
        push_str(&mut label, name.as_str());
        let mut keywords = owned("function call ");
        let lower = to_lowercase(name.as_str());
        push_str(&mut keywords, lower.as_str());
        let ghost r0 = r@;
        r.push(SearchRow { label, category: "Functions", keywords, spawn: SearchSpawn::Function(gid) });
        proof {
            assert(fs[k as int] == (gid, name@));
            let n0 = cat.len() + k;
            assert(rows_view(r@)[n0] == row_view(r@[n0]));
            assert(frows[k as int] == function_row(fs[k as int]));
            assert forall|j: int| 0 <= j < n0 implies rows_view(r@)[j] == (cat + frows.take(k + 1))[j] by {
                assert(r@[j] == r0[j]);
                assert(rows_view(r0)[j] == (cat + frows.take(k as int))[j]);
            }
            assert(rows_view(r@) =~= cat + frows.take(k + 1));
        }
        k = k + 1;
    }
    proof {
        assert(frows.take(functions@.len() as int) =~= frows);
    }
    r
}

/// Whether `needle` occurs in `hay`.
pub open spec fn contains_text(hay: Seq<char>, needle: Seq<char>) -> bool {
    exists|i: int| 0 <= i <= hay.len() - needle.len() && #[trigger] hay.subrange(i, i + needle.len()) == needle
}

/// Whether a row matches a lowercased query: an empty query matches every
/// row; otherwise the lowercased label or category, or the keywords,
/// contain it.
pub open spec fn row_matches(
    row: (Seq<char>, Seq<char>, Seq<char>, SearchSpawn),
    q: Seq<char>,
) -> bool {
    q.len() == 0 || contains_text(lowercase(row.0), q) || contains_text(lowercase(row.1), q)
        || contains_text(row.2, q)
}

/// Whether `needle` occurs in `hay`.
fn has_text(hay: &str, needle: &str) -> (b: bool)
    ensures
        b == contains_text(hay@, needle@),
{
    let h = chars_of(hay);
    let n = chars_of(needle);
    if n.len() > h.len() {
        proof {
            assert forall|i: int| 0 <= i <= h@.len() - n@.len() implies #[trigger] h@.subrange(i, i + n@.len()) != n@ by {}
        }
        return false;
    }
    let mut i: usize = 0;
    while i <= h.len() - n.len()
        invariant
            n@.len() <= h@.len(),
            h@ == hay@,
            n@ == needle@,
            i <= h@.len() - n@.len() + 1,
            forall|k: int| 0 <= k < i ==> #[trigger] h@.subrange(k, k + n@.len()) != n@,
        decreases h@.len() - n@.len() + 1 - i,
    {
        let mut j: usize = 0;
        let mut same = true;
        while j < n.len()
            invariant
                j <= n@.len(),
                i + n@.len() <= h@.len(),
                h@.len() == h.len(),
                n@.len() == n.len(),
                same == forall|m: int| 0 <= m < j ==> h@[i + m] == n@[m],
            decreases n@.len() - j,
        {
            let p = i + j;
            if h[p] != n[j] {
                same = false;
            }
            j = j + 1;
        }
        if same {
            proof {
                assert(h@.subrange(i as int, i + n@.len()) =~= n@);
            }
            return true;
        }
        proof {
            let m = choose|m: int| 0 <= m < n@.len() && h@[i + m] != n@[m];
            assert(h@.subrange(i as int, i + n@.len())[m] != n@[m]);
        }
        i = i + 1;
    }
    false
}

/// Whether text `a` sorts before text `b` (by characters, as string
/// comparison orders them).
pub open spec fn text_lt(a: Seq<char>, b: Seq<char>) -> bool
    decreases a.len(),
{
    if a.len() == 0 {
        b.len() > 0
    } else if b.len() == 0 {
        false
    } else if a[0] != b[0] {
        a[0] < b[0]
    } else {
        text_lt(a.drop_first(), b.drop_first())
    }
}

/// Text order is strict and transitive, and orders any two texts.
pub proof fn lemma_text_order(a: Seq<char>, b: Seq<char>, c: Seq<char>)
    ensures
        !text_lt(a, a),
        text_lt(a, b) ==> !text_lt(b, a),
        text_lt(a, b) && text_lt(b, c) ==> text_lt(a, c),
        a == b || text_lt(a, b) || text_lt(b, a),
    decreases a.len(),
{
    if a.len() > 0 && b.len() > 0 && c.len() > 0 {
        lemma_text_order(a.drop_first(), b.drop_first(), c.drop_first());
    } else if a.len() > 0 && b.len() > 0 {
        lemma_text_order(a.drop_first(), b.drop_first(), b.drop_first());
    } else if a.len() > 0 {
        lemma_text_order(a.drop_first(), a.drop_first(), a.drop_first());
    }
    if a.len() > 0 && b.len() > 0 && a[0] == b[0] && a.drop_first() == b.drop_first() {
        assert forall|k: int| 0 <= k < a.len() implies a[k] == b[k] by {
            if k > 0 {
                assert(a[k] == a.drop_first()[k - 1]);
                assert(b[k] == b.drop_first()[k - 1]);
            }
        }
        assert(a =~= b);
    }
}

/// Whether text `a` sorts before text `b`.
pub fn text_less(a: &str, b: &str) -> (r: bool)
    ensures
        r == text_lt(a@, b@),
{
    let x = chars_of(a);
    let y = chars_of(b);
    let mut i: usize = 0;
    proof {
        assert(x@.skip(0) =~= x@);
        assert(y@.skip(0) =~= y@);
    }
    while i < x.len() && i < y.len() && x[i] == y[i]
        invariant
            i <= x@.len(),
            i <= y@.len(),
            text_lt(x@, y@) == text_lt(x@.skip(i as int), y@.skip(i as int)),
            x@ == a@,
            y@ == b@,
        decreases x@.len() - i,
    {
        proof {
            assert(x@.skip(i as int).drop_first() =~= x@.skip(i + 1));
            assert(y@.skip(i as int).drop_first() =~= y@.skip(i + 1));
        }
        i = i + 1;
    }
    if i == x.len() {
        i < y.len()
    } else if i == y.len() {
        false
    } else {
        x[i] < y[i]
    }
}

/// Whether row `i` comes before row `j`: by category, then label, then
/// position.
pub open spec fn row_before(rows: Seq<(Seq<char>, Seq<char>, Seq<char>, SearchSpawn)>, i: int, j: int) -> bool {
    text_lt(rows[i].1, rows[j].1) || (rows[i].1 == rows[j].1 && (text_lt(rows[i].0, rows[j].0) || (
    rows[i].0 == rows[j].0 && i < j)))
}


/// Row order is strict and transitive, and orders any two rows.
pub proof fn lemma_row_order(
    rows: Seq<(Seq<char>, Seq<char>, Seq<char>, SearchSpawn)>,
    i: int,
    j: int,
    k: int,
)
    ensures
        !row_before(rows, i, i),
        row_before(rows, i, j) ==> !row_before(rows, j, i),
        row_before(rows, i, j) && row_before(rows, j, k) ==> row_before(rows, i, k),
        i != j ==> row_before(rows, i, j) || row_before(rows, j, i),
{
    lemma_text_order(rows[i].1, rows[j].1, rows[k].1);
    lemma_text_order(rows[i].0, rows[j].0, rows[k].0);
    lemma_text_order(rows[j].1, rows[i].1, rows[k].1);
    lemma_text_order(rows[j].0, rows[i].0, rows[k].0);
    lemma_text_order(rows[i].1, rows[k].1, rows[j].1);
    lemma_text_order(rows[i].0, rows[k].0, rows[j].0);
}

/// Whether row `i` comes before row `j`.
fn row_first(rows: &Vec<SearchRow>, i: usize, j: usize) -> (b: bool)
    requires
        i < rows@.len(),
        j < rows@.len(),
    ensures
        b == row_before(rows_view(rows@), i as int, j as int),
{
    let ri = &rows[i];
    let rj = &rows[j];
    if text_less(ri.category, rj.category) {
        return true;
    }
    if !crate::text::same_text(ri.category, rj.category) {
        return false;
    }
    if text_less(ri.label.as_str(), rj.label.as_str()) {
        return true;
    }
    crate::text::same_text(ri.label.as_str(), rj.label.as_str()) && i < j
}

/// The rows that match `query`, ordered by category, then label, then
/// position.
pub fn matching_rows(rows: &Vec<SearchRow>, query: &str) -> (r: Vec<usize>)
    ensures
        ({
            let rv = rows_view(rows@);
            let q = lowercase(query@);
            &&& r@.no_duplicates()
            &&& forall|k: int|
                0 <= k < r@.len() ==> r@[k] < rows@.len() && row_matches(rv[r@[k] as int], q)
            &&& forall|i: int|
                0 <= i < rows@.len() && row_matches(rv[i], q) ==> r@.contains(i as usize)
            &&& forall|a: int, b: int|
                0 <= a < b < r@.len() ==> row_before(rv, r@[a] as int, r@[b] as int)
        }),
{
    let ghost rv = rows_view(rows@);
    let q = to_lowercase(query);
    let ghost ql = lowercase(query@);
    let empty = chars_of(q.as_str()).len() == 0;
    let mut r: Vec<usize> = Vec::new();
    let mut i: usize = 0;
    while i < rows.len()
        invariant
            i <= rows@.len(),
            rv == rows_view(rows@),
            q@ == ql,
            ql == lowercase(query@),
            empty == (ql.len() == 0),
            r@.no_duplicates(),
            forall|k: int| 0 <= k < r@.len() ==> r@[k] < i && row_matches(rv[r@[k] as int], ql),
            forall|m: int| 0 <= m < i && row_matches(rv[m], ql) ==> r@.contains(m as usize),
            forall|a: int, b: int| 0 <= a < b < r@.len() ==> row_before(rv, r@[a] as int, r@[b] as int),
        decreases rows@.len() - i,
    {
        let row = &rows[i];
        proof {
            assert(rv[i as int] == row_view(rows@[i as int]));
        }
        let lab = to_lowercase(row.label.as_str());
        let cat = to_lowercase(row.category);
        let hit = empty || has_text(lab.as_str(), q.as_str()) || has_text(cat.as_str(), q.as_str())
            || has_text(row.keywords.as_str(), q.as_str());
        if hit {
            let mut p: usize = 0;
            while p < r.len() && !row_first(rows, i, r[p])
                invariant
                    p <= r@.len(),
                    i < rows@.len(),
                    rv == rows_view(rows@),
                    forall|k: int| 0 <= k < r@.len() ==> r@[k] < i,
                    forall|k: int| 0 <= k < p ==> !row_before(rv, i as int, r@[k] as int),
                decreases r@.len() - p,
            {
                p = p + 1;
            }
            let ghost r0 = r@;
            r.insert(p, i);
            proof {
                assert(r@ =~= r0.insert(p as int, i));
                assert forall|a: int, b: int| 0 <= a < b < r@.len() implies row_before(rv, r@[a] as int, r@[b] as int) by {
                    if b < p {
                        assert(r@[a] == r0[a] && r@[b] == r0[b]);
                    } else if b == p {
                        assert(r@[a] == r0[a]);
                        lemma_row_order(rv, i as int, r0[a] as int, i as int);
                    } else if a < p {
                        assert(r@[a] == r0[a] && r@[b] == r0[b - 1]);
                    } else if a == p {
                        assert(r@[b] == r0[b - 1]);
                        assert(row_before(rv, i as int, r0[p as int] as int));
                        if b - 1 > p {
                            assert(row_before(rv, r0[p as int] as int, r0[b - 1] as int));
                            lemma_row_order(rv, i as int, r0[p as int] as int, r0[b - 1] as int);
                        }
                    } else {
                        assert(r@[a] == r0[a - 1] && r@[b] == r0[b - 1]);
                    }
                }
                assert forall|x: int, y: int| 0 <= x < r@.len() && 0 <= y < r@.len() && x != y implies r@[x] != r@[y] by {
                    if x != p && y != p {
                        let xo = if x < p { x } else { x - 1 };
                        let yo = if y < p { y } else { y - 1 };
                        assert(r@[x] == r0[xo] && r@[y] == r0[yo]);
                    } else if x == p {
                        let yo = if y < p { y } else { y - 1 };
                        assert(r@[y] == r0[yo]);
                    } else {
                        let xo = if x < p { x } else { x - 1 };
                        assert(r@[x] == r0[xo]);
                    }
                }
                assert forall|m: int| 0 <= m < i + 1 && row_matches(rv[m], ql) implies r@.contains(m as usize) by {
                    if m < i {
                        assert(r0.contains(m as usize));
                        let k = choose|k: int| 0 <= k < r0.len() && r0[k] == m as usize;
                        if k < p {
                            assert(r@[k] == m as usize);
                        } else {
                            assert(r@[k + 1] == m as usize);
                        }
                    } else {
                        assert(r@[p as int] == i);
                    }
                }
                assert forall|k: int| 0 <= k < r@.len() implies r@[k] < i + 1 && row_matches(rv[r@[k] as int], ql) by {
                    if k < p {
                        assert(r@[k] == r0[k]);
                    } else if k > p {
                        assert(r@[k] == r0[k - 1]);
                    }
                }
            }
        } else {
            proof {
                assert(!row_matches(rv[i as int], ql));
            }
        }
        i = i + 1;
    }
    r
}

/// The selection kept within the shown rows: past the end it moves to the
/// last row (to 0 when there is none).
pub fn clamp_selection(selected: usize, len: usize) -> (r: usize)
    ensures
        r == if selected >= len {
            if len == 0 {
                0
            } else {
                (len - 1) as usize
            }
        } else {
            selected
        },
{
    if selected >= len {
        if len == 0 {
            0
        } else {
            len - 1
        }
    } else {
        selected
    }
}

/// The selection after Down: the next row, wrapping to the first.
pub fn select_next(selected: usize, len: usize) -> (r: usize)
    requires
        selected < len,
    ensures
        r == (selected + 1) % (len as int),
{
    (selected + 1) % len
}

/// The selection after Up: the previous row, wrapping to the last.
pub fn select_previous(selected: usize, len: usize) -> (r: usize)
    requires
        selected < len,
    ensures
        r == (selected + len - 1) % (len as int),
{
    if selected == 0 {
        proof {
            assert((len - 1) % (len as int) == len - 1) by (nonlinear_arith)
                requires
                    len > 0,
            ;
        }
        len - 1
    } else {
        proof {
            assert((selected + len - 1) % (len as int) == selected - 1) by (nonlinear_arith)
                requires
                    0 < selected < len,
            ;
        }
        selected - 1
    }
}

/// The state of the quick-search box.
#[derive(Debug)]
pub struct QuickSearchState {
    pub open: bool,
    pub query: String,
    pub selected: usize,
}

impl QuickSearchState {
    /// A closed box with an empty query.
    pub fn new() -> (s: QuickSearchState)
        ensures
            !s.open,
            s.query@ == Seq::<char>::empty(),
            s.selected == 0,
    {
        QuickSearchState { open: false, query: String::new(), selected: 0 }
    }

    /// Opens the box with an empty query and the first row selected.
    pub fn open_at_cursor(&mut self)
        ensures
            final(self).open,
            final(self).query@ == Seq::<char>::empty(),
            final(self).selected == 0,
    {
        self.open = true;
        self.query = String::new();
        self.selected = 0;
    }

    /// Closes the box and clears the query.
    pub fn close(&mut self)
        ensures
            !final(self).open,
            final(self).query@ == Seq::<char>::empty(),
            final(self).selected == old(self).selected,
    {
        self.open = false;
        self.query = String::new();
    }
}

impl Workspace {
    /// The node that a quick-search row spawns: a fresh catalog node, or a
    /// call of the user function.
    pub fn spawn_for(&self, spawn: SearchSpawn) -> (k: NodeKind)
        ensures
            match spawn {
                SearchSpawn::Static(item) => spawns(item, k),
                SearchSpawn::Function(graph_id) => self.is_call_of(k, graph_id),
            },
    {
        match spawn {
            SearchSpawn::Static(item) => item.make(),
            SearchSpawn::Function(graph_id) => self.build_function_call_node(graph_id),
        }
    }
}

} // verus!
