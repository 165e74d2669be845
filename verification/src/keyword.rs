//! The keyword taxonomy: the single table of every keyword, its token kind
//! and its class.

use crate::syntax_kind::SyntaxKind;
use crate::text::str_eq;
use vstd::prelude::*;

verus! {

/// Classification of keywords.
#[derive(Debug, Clone, Copy, PartialEq, Eq, Structural, Hash)]
pub enum KeywordClass {
    /// Always reserved; never an identifier (`fn`, `let`, `match`, `if`, ...).
    Hard,
    /// Boolean literals that are keywords syntactically (`True`, `False`).
    Literal,
    /// Only meaningful in specific positions (`python`, `as`).
    Contextual,
    /// Reserved for future features (`mut`, `async`, `await`).
    Reserved,
}

/// A single keyword entry: its source text, token kind and class.
pub struct KeywordSpec {
    /// The source text of the keyword.
    pub text: &'static str,
    /// The corresponding token kind.
    pub kind: SyntaxKind,
    /// The keyword classification.
    pub class: KeywordClass,
}

/// The mathematical form of a keyword entry.
pub struct KeywordEntry {
    pub text: Seq<char>,
    pub kind: SyntaxKind,
    pub class: KeywordClass,
}

impl View for KeywordSpec {
    type V = KeywordEntry;

    open spec fn view(&self) -> KeywordEntry {
        KeywordEntry { text: self.text@, kind: self.kind, class: self.class }
    }
}

/// The keyword table, ordered by class: hard, literal, contextual, reserved.
pub open spec fn keyword_table() -> Seq<KeywordEntry> {
    seq![
        KeywordEntry { text: seq!['f', 'n'], kind: SyntaxKind::FnKw, class: KeywordClass::Hard },
        KeywordEntry { text: seq!['p', 'u', 'b'], kind: SyntaxKind::PubKw, class: KeywordClass::Hard },
        KeywordEntry { text: seq!['l', 'e', 't'], kind: SyntaxKind::LetKw, class: KeywordClass::Hard },
        KeywordEntry { text: seq!['t', 'y', 'p', 'e'], kind: SyntaxKind::TypeKw, class: KeywordClass::Hard },
        KeywordEntry { text: seq!['m', 'a', 't', 'c', 'h'], kind: SyntaxKind::MatchKw, class: KeywordClass::Hard },
        KeywordEntry { text: seq!['i', 'f'], kind: SyntaxKind::IfKw, class: KeywordClass::Hard },
        KeywordEntry { text: seq!['e', 'l', 's', 'e'], kind: SyntaxKind::ElseKw, class: KeywordClass::Hard },
        KeywordEntry { text: seq!['i', 'm', 'p', 'o', 'r', 't'], kind: SyntaxKind::ImportKw, class: KeywordClass::Hard },
        KeywordEntry { text: seq!['f', 'r', 'o', 'm'], kind: SyntaxKind::FromKw, class: KeywordClass::Hard },
        KeywordEntry { text: seq!['t', 'r', 'y'], kind: SyntaxKind::TryKw, class: KeywordClass::Hard },
        KeywordEntry { text: seq!['T', 'r', 'u', 'e'], kind: SyntaxKind::TrueKw, class: KeywordClass::Literal },
        KeywordEntry { text: seq!['F', 'a', 'l', 's', 'e'], kind: SyntaxKind::FalseKw, class: KeywordClass::Literal },
        KeywordEntry { text: seq!['p', 'y', 't', 'h', 'o', 'n'], kind: SyntaxKind::PythonKw, class: KeywordClass::Contextual },
        KeywordEntry { text: seq!['a', 's'], kind: SyntaxKind::AsKw, class: KeywordClass::Contextual },
        KeywordEntry { text: seq!['m', 'u', 't'], kind: SyntaxKind::MutKw, class: KeywordClass::Reserved },
        KeywordEntry { text: seq!['a', 's', 'y', 'n', 'c'], kind: SyntaxKind::AsyncKw, class: KeywordClass::Reserved },
        KeywordEntry { text: seq!['a', 'w', 'a', 'i', 't'], kind: SyntaxKind::AwaitKw, class: KeywordClass::Reserved }
    ]
}

/// The source text of a keyword kind.
pub open spec fn spec_text_of(kind: SyntaxKind) -> Option<Seq<char>> {
    match kind {
        SyntaxKind::FnKw => Some(seq!['f', 'n']),
        SyntaxKind::PubKw => Some(seq!['p', 'u', 'b']),
        SyntaxKind::LetKw => Some(seq!['l', 'e', 't']),
        SyntaxKind::TypeKw => Some(seq!['t', 'y', 'p', 'e']),
        SyntaxKind::MatchKw => Some(seq!['m', 'a', 't', 'c', 'h']),
        SyntaxKind::IfKw => Some(seq!['i', 'f']),
        SyntaxKind::ElseKw => Some(seq!['e', 'l', 's', 'e']),
        SyntaxKind::ImportKw => Some(seq!['i', 'm', 'p', 'o', 'r', 't']),
        SyntaxKind::FromKw => Some(seq!['f', 'r', 'o', 'm']),
        SyntaxKind::TryKw => Some(seq!['t', 'r', 'y']),
        SyntaxKind::TrueKw => Some(seq!['T', 'r', 'u', 'e']),
        SyntaxKind::FalseKw => Some(seq!['F', 'a', 'l', 's', 'e']),
        SyntaxKind::PythonKw => Some(seq!['p', 'y', 't', 'h', 'o', 'n']),
        SyntaxKind::AsKw => Some(seq!['a', 's']),
        SyntaxKind::MutKw => Some(seq!['m', 'u', 't']),
        SyntaxKind::AsyncKw => Some(seq!['a', 's', 'y', 'n', 'c']),
        SyntaxKind::AwaitKw => Some(seq!['a', 'w', 'a', 'i', 't']),
        _ => None,
    }
}

/// The class of a keyword kind.
pub open spec fn spec_class_of(kind: SyntaxKind) -> Option<KeywordClass> {
    match kind {
        SyntaxKind::FnKw => Some(KeywordClass::Hard),
        SyntaxKind::PubKw => Some(KeywordClass::Hard),
        SyntaxKind::LetKw => Some(KeywordClass::Hard),
        SyntaxKind::TypeKw => Some(KeywordClass::Hard),
        SyntaxKind::MatchKw => Some(KeywordClass::Hard),
        SyntaxKind::IfKw => Some(KeywordClass::Hard),
        SyntaxKind::ElseKw => Some(KeywordClass::Hard),
        SyntaxKind::ImportKw => Some(KeywordClass::Hard),
        SyntaxKind::FromKw => Some(KeywordClass::Hard),
        SyntaxKind::TryKw => Some(KeywordClass::Hard),
        SyntaxKind::TrueKw => Some(KeywordClass::Literal),
        SyntaxKind::FalseKw => Some(KeywordClass::Literal),
        SyntaxKind::PythonKw => Some(KeywordClass::Contextual),
        SyntaxKind::AsKw => Some(KeywordClass::Contextual),
        SyntaxKind::MutKw => Some(KeywordClass::Reserved),
        SyntaxKind::AsyncKw => Some(KeywordClass::Reserved),
        SyntaxKind::AwaitKw => Some(KeywordClass::Reserved),
        _ => None,
    }
}

/// The keyword kind spelled by a text.
pub open spec fn spec_kind_of_text(t: Seq<char>) -> Option<SyntaxKind> {
    if t.len() == 2 {
        if t[0] == 'f' && t[1] == 'n' {
            Some(SyntaxKind::FnKw)
        } else if t[0] == 'i' && t[1] == 'f' {
            Some(SyntaxKind::IfKw)
        } else if t[0] == 'a' && t[1] == 's' {
            Some(SyntaxKind::AsKw)
        } else {
            None
        }
    } else if t.len() == 3 {
        if t[0] == 'p' && t[1] == 'u' && t[2] == 'b' {
            Some(SyntaxKind::PubKw)
        } else if t[0] == 'l' && t[1] == 'e' && t[2] == 't' {
            Some(SyntaxKind::LetKw)
        } else if t[0] == 't' && t[1] == 'r' && t[2] == 'y' {
            Some(SyntaxKind::TryKw)
        } else if t[0] == 'm' && t[1] == 'u' && t[2] == 't' {
            Some(SyntaxKind::MutKw)
        } else {
            None
        }
    } else if t.len() == 4 {
        if t[0] == 't' && t[1] == 'y' && t[2] == 'p' && t[3] == 'e' {
            Some(SyntaxKind::TypeKw)
        } else if t[0] == 'e' && t[1] == 'l' && t[2] == 's' && t[3] == 'e' {
            Some(SyntaxKind::ElseKw)
        } else if t[0] == 'f' && t[1] == 'r' && t[2] == 'o' && t[3] == 'm' {
            Some(SyntaxKind::FromKw)
        } else if t[0] == 'T' && t[1] == 'r' && t[2] == 'u' && t[3] == 'e' {
            Some(SyntaxKind::TrueKw)
        } else {
            None
        }
    } else if t.len() == 5 {
        if t[0] == 'm' && t[1] == 'a' && t[2] == 't' && t[3] == 'c' && t[4] == 'h' {
            Some(SyntaxKind::MatchKw)
        } else if t[0] == 'F' && t[1] == 'a' && t[2] == 'l' && t[3] == 's' && t[4] == 'e' {
            Some(SyntaxKind::FalseKw)
        } else if t[0] == 'a' && t[1] == 's' && t[2] == 'y' && t[3] == 'n' && t[4] == 'c' {
            Some(SyntaxKind::AsyncKw)
        } else if t[0] == 'a' && t[1] == 'w' && t[2] == 'a' && t[3] == 'i' && t[4] == 't' {
            Some(SyntaxKind::AwaitKw)
        } else {
            None
        }
    } else if t.len() == 6 {
        if t[0] == 'i' && t[1] == 'm' && t[2] == 'p' && t[3] == 'o' && t[4] == 'r' && t[5] == 't' {
            Some(SyntaxKind::ImportKw)
        } else if t[0] == 'p' && t[1] == 'y' && t[2] == 't' && t[3] == 'h' && t[4] == 'o' && t[5] == 'n' {
            Some(SyntaxKind::PythonKw)
        } else {
            None
        }
    } else {
        None
    }
}

/// Every entry of the table agrees with the three lookups.
pub proof fn lemma_table_entries(i: int)
    requires
        0 <= i < keyword_table().len(),
    ensures
        spec_text_of(keyword_table()[i].kind) == Some(keyword_table()[i].text),
        spec_class_of(keyword_table()[i].kind) == Some(keyword_table()[i].class),
        spec_kind_of_text(keyword_table()[i].text) == Some(keyword_table()[i].kind),
        keyword_table()[i].kind.spec_is_keyword(),
{
}

/// The keywords are exactly the kinds of the table's entries.
pub proof fn lemma_table_covers_keywords(kind: SyntaxKind)
    ensures
        kind.spec_is_keyword() <==> exists|i: int|
            0 <= i < keyword_table().len() && #[trigger] keyword_table()[i].kind == kind,
{
    match kind {
        SyntaxKind::FnKw => assert(keyword_table()[0].kind == kind),
        SyntaxKind::PubKw => assert(keyword_table()[1].kind == kind),
        SyntaxKind::LetKw => assert(keyword_table()[2].kind == kind),
        SyntaxKind::TypeKw => assert(keyword_table()[3].kind == kind),
        SyntaxKind::MatchKw => assert(keyword_table()[4].kind == kind),
        SyntaxKind::IfKw => assert(keyword_table()[5].kind == kind),
        SyntaxKind::ElseKw => assert(keyword_table()[6].kind == kind),
        SyntaxKind::ImportKw => assert(keyword_table()[7].kind == kind),
        SyntaxKind::FromKw => assert(keyword_table()[8].kind == kind),
        SyntaxKind::TryKw => assert(keyword_table()[9].kind == kind),
        SyntaxKind::TrueKw => assert(keyword_table()[10].kind == kind),
        SyntaxKind::FalseKw => assert(keyword_table()[11].kind == kind),
        SyntaxKind::PythonKw => assert(keyword_table()[12].kind == kind),
        SyntaxKind::AsKw => assert(keyword_table()[13].kind == kind),
        SyntaxKind::MutKw => assert(keyword_table()[14].kind == kind),
        SyntaxKind::AsyncKw => assert(keyword_table()[15].kind == kind),
        SyntaxKind::AwaitKw => assert(keyword_table()[16].kind == kind),
        _ => {
            if exists|i: int| 0 <= i < keyword_table().len() && #[trigger] keyword_table()[i].kind == kind {
                let i = choose|i: int| 0 <= i < keyword_table().len() && #[trigger] keyword_table()[i].kind == kind;
                lemma_table_entries(i);
            }
        },
    }
}

/// A text names a keyword only if it is that keyword's text.
pub proof fn lemma_kind_of_text_inverse(t: Seq<char>)
    ensures
        spec_kind_of_text(t) matches Some(k) ==> spec_text_of(k) == Some(t),
{
    if let Some(k) = spec_kind_of_text(t) {
        assert(t =~= spec_text_of(k)->0);
    }
}

/// No two entries share a kind or a text.
pub proof fn lemma_table_unique(i: int, j: int)
    requires
        0 <= i < keyword_table().len(),
        0 <= j < keyword_table().len(),
        i != j,
    ensures
        keyword_table()[i].kind != keyword_table()[j].kind,
        keyword_table()[i].text != keyword_table()[j].text,
{
    lemma_table_entries(i);
    lemma_table_entries(j);
}

/// A kind has a class and a text exactly when it is a keyword, and looking
/// up the text of a keyword gives the keyword back.
pub proof fn lemma_keyword_roundtrip(kind: SyntaxKind)
    ensures
        spec_class_of(kind) is Some <==> kind.spec_is_keyword(),
        spec_text_of(kind) is Some <==> kind.spec_is_keyword(),
        kind.spec_is_keyword() ==> spec_kind_of_text(spec_text_of(kind)->0) == Some(kind),
{
}

/// Builds the keyword table.
pub fn keywords() -> (v: Vec<KeywordSpec>)
    ensures
        v@.len() == keyword_table().len(),
        forall|i: int| 0 <= i < v@.len() ==> #[trigger] v@[i]@ == keyword_table()[i],
{
    proof {
        reveal_strlit("fn");
        reveal_strlit("pub");
        reveal_strlit("let");
        reveal_strlit("type");
        reveal_strlit("match");
        reveal_strlit("if");
        reveal_strlit("else");
        reveal_strlit("import");
        reveal_strlit("from");
        reveal_strlit("try");
        reveal_strlit("True");
        reveal_strlit("False");
        reveal_strlit("python");
        reveal_strlit("as");
        reveal_strlit("mut");
        reveal_strlit("async");
        reveal_strlit("await");
    }
    let mut v: Vec<KeywordSpec> = Vec::new();
    v.push(KeywordSpec { text: "fn", kind: SyntaxKind::FnKw, class: KeywordClass::Hard });
    v.push(KeywordSpec { text: "pub", kind: SyntaxKind::PubKw, class: KeywordClass::Hard });
    v.push(KeywordSpec { text: "let", kind: SyntaxKind::LetKw, class: KeywordClass::Hard });
    v.push(KeywordSpec { text: "type", kind: SyntaxKind::TypeKw, class: KeywordClass::Hard });
    v.push(KeywordSpec { text: "match", kind: SyntaxKind::MatchKw, class: KeywordClass::Hard });
    v.push(KeywordSpec { text: "if", kind: SyntaxKind::IfKw, class: KeywordClass::Hard });
    v.push(KeywordSpec { text: "else", kind: SyntaxKind::ElseKw, class: KeywordClass::Hard });
    v.push(KeywordSpec { text: "import", kind: SyntaxKind::ImportKw, class: KeywordClass::Hard });
    v.push(KeywordSpec { text: "from", kind: SyntaxKind::FromKw, class: KeywordClass::Hard });
    v.push(KeywordSpec { text: "try", kind: SyntaxKind::TryKw, class: KeywordClass::Hard });
    v.push(KeywordSpec { text: "True", kind: SyntaxKind::TrueKw, class: KeywordClass::Literal });
    v.push(KeywordSpec { text: "False", kind: SyntaxKind::FalseKw, class: KeywordClass::Literal });
    v.push(KeywordSpec { text: "python", kind: SyntaxKind::PythonKw, class: KeywordClass::Contextual });
    v.push(KeywordSpec { text: "as", kind: SyntaxKind::AsKw, class: KeywordClass::Contextual });
    v.push(KeywordSpec { text: "mut", kind: SyntaxKind::MutKw, class: KeywordClass::Reserved });
    v.push(KeywordSpec { text: "async", kind: SyntaxKind::AsyncKw, class: KeywordClass::Reserved });
    v.push(KeywordSpec { text: "await", kind: SyntaxKind::AwaitKw, class: KeywordClass::Reserved });
    assert(v@[0]@.text =~= keyword_table()[0].text);
    assert(v@[1]@.text =~= keyword_table()[1].text);
    assert(v@[2]@.text =~= keyword_table()[2].text);
    assert(v@[3]@.text =~= keyword_table()[3].text);
    assert(v@[4]@.text =~= keyword_table()[4].text);
    assert(v@[5]@.text =~= keyword_table()[5].text);
    assert(v@[6]@.text =~= keyword_table()[6].text);
    assert(v@[7]@.text =~= keyword_table()[7].text);
    assert(v@[8]@.text =~= keyword_table()[8].text);
    assert(v@[9]@.text =~= keyword_table()[9].text);
    assert(v@[10]@.text =~= keyword_table()[10].text);
    assert(v@[11]@.text =~= keyword_table()[11].text);
    assert(v@[12]@.text =~= keyword_table()[12].text);
    assert(v@[13]@.text =~= keyword_table()[13].text);
    assert(v@[14]@.text =~= keyword_table()[14].text);
    assert(v@[15]@.text =~= keyword_table()[15].text);
    assert(v@[16]@.text =~= keyword_table()[16].text);
    v
}

/// Looks up the token kind of a keyword text, or `None` if the text is not a keyword.
pub fn kind_of_text(text: &str) -> (r: Option<SyntaxKind>)
    ensures
        r == spec_kind_of_text(text@),
{
    let table = keywords();
    let mut i: usize = 0;
    while i < table.len()
        invariant
            0 <= i <= table@.len(),
            table@.len() == keyword_table().len(),
            forall|j: int| 0 <= j < table@.len() ==> #[trigger] table@[j]@ == keyword_table()[j],
            forall|j: int| 0 <= j < i ==> keyword_table()[j].text != text@,
        decreases table@.len() - i,
    {
        assert(table@[i as int]@ == keyword_table()[i as int]);
        if str_eq(text, table[i].text) {
            proof { lemma_table_entries(i as int); }
            return Some(table[i].kind);
        }
        i += 1;
    }
    proof {
        if spec_kind_of_text(text@) is Some {
            let k = spec_kind_of_text(text@)->0;
            lemma_table_covers_keywords(k);
            let j = choose|j: int| 0 <= j < keyword_table().len() && #[trigger] keyword_table()[j].kind == k;
            lemma_table_entries(j);
            lemma_kind_of_text_inverse(text@);
        }
    }
    None
}

/// Looks up the class of a keyword kind, or `None` if the kind is not a keyword.
pub fn class_of(kind: SyntaxKind) -> (r: Option<KeywordClass>)
    ensures
        r == spec_class_of(kind),
{
    let table = keywords();
    let mut i: usize = 0;
    while i < table.len()
        invariant
            0 <= i <= table@.len(),
            table@.len() == keyword_table().len(),
            forall|j: int| 0 <= j < table@.len() ==> #[trigger] table@[j]@ == keyword_table()[j],
            forall|j: int| 0 <= j < i ==> keyword_table()[j].kind != kind,
        decreases table@.len() - i,
    {
        assert(table@[i as int]@ == keyword_table()[i as int]);
        if table[i].kind == kind {
            proof { lemma_table_entries(i as int); }
            return Some(table[i].class);
        }
        i += 1;
    }
    proof { lemma_table_covers_keywords(kind); }
    None
}

/// Looks up the source text of a keyword kind, or `None` if the kind is not a keyword.
pub fn text_of(kind: SyntaxKind) -> (r: Option<&'static str>)
    ensures
        r matches Some(t) ==> spec_text_of(kind) == Some(t@),
        r is None <==> spec_text_of(kind) is None,
{
    let table = keywords();
    let mut i: usize = 0;
    while i < table.len()
        invariant
            0 <= i <= table@.len(),
            table@.len() == keyword_table().len(),
            forall|j: int| 0 <= j < table@.len() ==> #[trigger] table@[j]@ == keyword_table()[j],
            forall|j: int| 0 <= j < i ==> keyword_table()[j].kind != kind,
        decreases table@.len() - i,
    {
        assert(table@[i as int]@ == keyword_table()[i as int]);
        if table[i].kind == kind {
            proof { lemma_table_entries(i as int); }
            return Some(table[i].text);
        }
        i += 1;
    }
    proof { lemma_table_covers_keywords(kind); }
    None
}

} // verus!
