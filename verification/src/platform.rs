//! Platform predicates: boolean expressions over the target triple and the
//! active compile-time flags, which gate dependency edges.

use vstd::prelude::*;
use crate::text::text_same;

verus! {

/// A compile-time configuration flag: a bare name, or a key with a value.
#[derive(Debug)]
pub enum Flag {
    Name(String),
    KeyValue(String, String),
}

/// What a flag says.
pub ghost enum FlagView {
    Name(Seq<char>),
    KeyValue(Seq<char>, Seq<char>),
}

impl View for Flag {
    type V = FlagView;

    open spec fn view(&self) -> FlagView {
        match self {
            Flag::Name(name) => FlagView::Name(name@),
            Flag::KeyValue(key, value) => FlagView::KeyValue(key@, value@),
        }
    }
}

impl Flag {
    /// Whether the two flags are the same.
    pub fn same(&self, other: &Flag) -> (r: bool)
        ensures
            r == (self@ == other@),
    {
        match (self, other) {
            (Flag::Name(a), Flag::Name(b)) => *a == *b,
            (Flag::KeyValue(a, x), Flag::KeyValue(b, y)) => *a == *b && *x == *y,
            _ => false,
        }
    }
}

/// Whether `k` is the place of the first equals sign of the line.
pub open spec fn is_first_equals(line: Seq<char>, k: int) -> bool {
    &&& 0 <= k < line.len()
    &&& line[k] == '='
    &&& forall|j: int| 0 <= j < k ==> line[j] != '='
}

/// The flag that a line of the compiler's configuration listing stands for:
/// a line without an equals sign is a name, unless it is empty; a line with
/// one is a key, the sign, and a value in double quotes.
pub open spec fn parsed_flag(line: Seq<char>) -> Option<FlagView> {
    if exists|k: int| is_first_equals(line, k) {
        let k = choose|k: int| is_first_equals(line, k);
        let value = line.skip(k + 1);
        if k > 0 && value.len() >= 2 && value.first() == '"' && value.last() == '"' {
            Some(FlagView::KeyValue(line.take(k), value.subrange(1, value.len() - 1)))
        } else {
            None
        }
    } else if line.len() > 0 {
        Some(FlagView::Name(line))
    } else {
        None
    }
}

/// Reads a line of the compiler's configuration listing.
pub fn parse_flag(line: &str) -> (r: Option<Flag>)
    ensures
        match r {
            Some(flag) => parsed_flag(line@) == Some(flag@),
            None => parsed_flag(line@) is None,
        },
{
    let n = line.unicode_len();
    let mut k: usize = 0;
    while k < n && line.get_char(k) != '='
        invariant
            n == line@.len(),
            k <= n,
            forall|j: int| 0 <= j < k ==> line@[j] != '=',
        decreases n - k,
    {
        k += 1;
    }
    if k == n {
        assert(!exists|j: int| is_first_equals(line@, j));
        if n > 0 {
            let name = line.to_owned();
            return Some(Flag::Name(name));
        } else {
            return None;
        }
    }
    proof {
        assert(is_first_equals(line@, k as int));
        let chosen = choose|j: int| is_first_equals(line@, j);
        if chosen < k {
            assert(line@[chosen] == '=');
        } else if k < chosen {
            assert(line@[k as int] == '=');
        }
    }
    let ghost value = line@.skip(k + 1);
    if k > 0 && n - k - 1 >= 2 && line.get_char(k + 1) == '"' && line.get_char(n - 1) == '"' {
        let key = line.substring_char(0, k).to_owned();
        let text = line.substring_char(k + 2, n - 1).to_owned();
        proof {
            assert(line@.subrange(0, k as int) =~= line@.take(k as int));
            assert(line@.subrange(k + 2, n - 1) =~= value.subrange(1, value.len() - 1));
        }
        Some(Flag::KeyValue(key, text))
    } else {
        None
    }
}

/// What a list of flags says, flag by flag.
pub open spec fn flag_views(flags: Seq<Flag>) -> Seq<FlagView> {
    flags.map_values(|f: Flag| f@)
}

/// Whether `flag` is among `flags`.
pub fn flag_is_active(flags: &Vec<Flag>, flag: &Flag) -> (r: bool)
    ensures
        r == flag_views(flags@).contains(flag@),
{
    let mut i: usize = 0;
    while i < flags.len()
        invariant
            i <= flags.len(),
            forall|k: int| 0 <= k < i ==> flag_views(flags@)[k] != flag@,
        decreases flags.len() - i,
    {
        if flags[i].same(flag) {
            assert(flag_views(flags@)[i as int] == flag@);
            return true;
        }
        i += 1;
    }
    false
}

/// A boolean expression over the target triple and the active flags.
#[derive(Debug)]
pub enum Predicate {
    /// Holds for the one target triple it names.
    Target(String),
    /// Holds where the flag is active.
    Flag(Flag),
    /// Holds where the inner predicate does not.
    Not(Box<Predicate>),
    /// Holds where every one of the inner predicates does.
    All(Vec<Predicate>),
    /// Holds where at least one of the inner predicates does.
    Any(Vec<Predicate>),
}

/// Whether the predicate holds for the target triple and the active flags.
pub open spec fn holds(p: Predicate, target: Seq<char>, flags: Seq<FlagView>) -> bool
    decreases p,
{
    match p {
        Predicate::Target(name) => name@ == target,
        Predicate::Flag(flag) => flags.contains(flag@),
        Predicate::Not(inner) => !holds(*inner, target, flags),
        Predicate::All(parts) => forall|i: int|
            0 <= i < parts.len() ==> holds(#[trigger] parts[i], target, flags),
        Predicate::Any(parts) => exists|i: int|
            0 <= i < parts.len() && holds(#[trigger] parts[i], target, flags),
    }
}

/// Whether an edge gated by `platform` is active. An edge without a predicate
/// always is, and without an active target every edge is.
pub open spec fn edge_is_active(
    platform: Option<Predicate>,
    target: Option<Seq<char>>,
    flags: Seq<FlagView>,
) -> bool {
    match (platform, target) {
        (Some(predicate), Some(triple)) => holds(predicate, triple, flags),
        _ => true,
    }
}

impl Predicate {
    /// Evaluates the predicate against the target triple and the active flags.
    pub fn matches(&self, target: &str, flags: &Vec<Flag>) -> (r: bool)
        ensures
            r == holds(*self, target@, flag_views(flags@)),
        decreases self,
    {
        match self {
            Predicate::Target(name) => text_same(name.as_str(), target),
            Predicate::Flag(flag) => flag_is_active(flags, flag),
            Predicate::Not(inner) => !inner.matches(target, flags),
            Predicate::All(parts) => all_match(parts, target, flags),
            Predicate::Any(parts) => any_match(parts, target, flags),
        }
    }
}

/// Whether every one of the predicates holds.
pub fn all_match(parts: &Vec<Predicate>, target: &str, flags: &Vec<Flag>) -> (r: bool)
    ensures
        r == forall|i: int|
            0 <= i < parts.len() ==> holds(#[trigger] parts[i], target@, flag_views(flags@)),
    decreases parts,
{
    let mut i: usize = 0;
    while i < parts.len()
        invariant
            i <= parts.len(),
            forall|k: int| 0 <= k < i ==> holds(#[trigger] parts[k], target@, flag_views(flags@)),
        decreases parts.len() - i,
    {
        if !parts[i].matches(target, flags) {
            return false;
        }
        i += 1;
    }
    true
}

/// Whether at least one of the predicates holds.
pub fn any_match(parts: &Vec<Predicate>, target: &str, flags: &Vec<Flag>) -> (r: bool)
    ensures
        r == exists|i: int|
            0 <= i < parts.len() && holds(#[trigger] parts[i], target@, flag_views(flags@)),
    decreases parts,
{
    let mut i: usize = 0;
    while i < parts.len()
        invariant
            i <= parts.len(),
            forall|k: int| 0 <= k < i ==> !holds(#[trigger] parts[k], target@, flag_views(flags@)),
        decreases parts.len() - i,
    {
        if parts[i].matches(target, flags) {
            return true;
        }
        i += 1;
    }
    false
}

/// Whether an edge gated by `platform` is active for the target and flags.
pub fn edge_passes(platform: &Option<Predicate>, target: Option<&str>, flags: &Vec<Flag>) -> (r:
    bool)
    ensures
        r == edge_is_active(
            *platform,
            match target {
                Some(triple) => Some(triple@),
                None => None,
            },
            flag_views(flags@),
        ),
{
    match platform {
        Some(predicate) => match target {
            Some(triple) => predicate.matches(triple, flags),
            None => true,
        },
        None => true,
    }
}

} // verus!
