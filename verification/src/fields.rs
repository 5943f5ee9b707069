//! The named values of a message.

use vstd::prelude::*;

verus! {

/// Named values in the order in which their names first appeared: pairs of a
/// name and a value.
pub open spec fn pairs(entries: Seq<(String, String)>) -> Seq<(Seq<char>, Seq<char>)> {
    Seq::new(entries.len(), |i: int| (entries[i].0@, entries[i].1@))
}

/// No name occurs twice.
pub open spec fn names_distinct(fields: Seq<(Seq<char>, Seq<char>)>) -> bool {
    forall|i: int, j: int|
        #![trigger fields[i], fields[j]]
        0 <= i < j < fields.len() ==> fields[i].0 != fields[j].0
}

/// The first position at or after `from` whose name is `name`.
pub open spec fn name_from(
    fields: Seq<(Seq<char>, Seq<char>)>,
    name: Seq<char>,
    from: int,
) -> Option<int>
    decreases fields.len() - from,
{
    if from >= fields.len() {
        None
    } else if fields[from].0 == name {
        Some(from)
    } else {
        name_from(fields, name, from + 1)
    }
}

/// The value of `name`, if it has one.
pub open spec fn lookup(fields: Seq<(Seq<char>, Seq<char>)>, name: Seq<char>) -> Option<
    Seq<char>,
> {
    match name_from(fields, name, 0) {
        Some(i) => Some(fields[i].1),
        None => None,
    }
}

/// The two hold the same values under the same names, each name once. Their order
/// may differ.
pub open spec fn same_fields(
    a: Seq<(Seq<char>, Seq<char>)>,
    b: Seq<(Seq<char>, Seq<char>)>,
) -> bool {
    &&& names_distinct(a)
    &&& names_distinct(b)
    &&& forall|name: Seq<char>| #[trigger] lookup(a, name) == lookup(b, name)
}

/// A value continued on a line of its own. An empty value is replaced.
pub open spec fn continued(value: Seq<char>, more: Seq<char>) -> Seq<char> {
    if value.len() == 0 {
        more
    } else {
        value.push('\n') + more
    }
}

/// The fields after one more value came in for `name`: a new name goes to the
/// end, a known one has its value continued.
pub open spec fn add_field(
    fields: Seq<(Seq<char>, Seq<char>)>,
    name: Seq<char>,
    value: Seq<char>,
) -> Seq<(Seq<char>, Seq<char>)> {
    match name_from(fields, name, 0) {
        Some(i) => fields.update(i, (name, continued(fields[i].1, value))),
        None => fields.push((name, value)),
    }
}

/// A search for a name ends at its first position, or fails where it has none.
pub proof fn lemma_name_from(fields: Seq<(Seq<char>, Seq<char>)>, name: Seq<char>, from: int)
    requires
        0 <= from,
    ensures
        match name_from(fields, name, from) {
            Some(i) => {
                &&& from <= i < fields.len()
                &&& fields[i].0 == name
                &&& forall|j: int| from <= j < i ==> fields[j].0 != name
            },
            None => forall|j: int| from <= j < fields.len() ==> fields[j].0 != name,
        },
    decreases fields.len() - from,
{
    if from < fields.len() && fields[from].0 != name {
        lemma_name_from(fields, name, from + 1);
    }
}

/// Adding a value keeps names distinct.
pub proof fn lemma_add_field_distinct(
    fields: Seq<(Seq<char>, Seq<char>)>,
    name: Seq<char>,
    value: Seq<char>,
)
    requires
        names_distinct(fields),
    ensures
        names_distinct(add_field(fields, name, value)),
{
    lemma_name_from(fields, name, 0);
}

/// Adding a value for a name sets the value of that name, continuing the one it
/// had, and leaves the value of every other name as it was.
pub proof fn law_add_field(
    fields: Seq<(Seq<char>, Seq<char>)>,
    name: Seq<char>,
    value: Seq<char>,
    other: Seq<char>,
)
    ensures
        lookup(add_field(fields, name, value), other) == (if other == name {
            Some(
                match lookup(fields, name) {
                    Some(known) => continued(known, value),
                    None => value,
                },
            )
        } else {
            lookup(fields, other)
        }),
{
    lemma_name_from(fields, name, 0);
    lemma_name_from(fields, other, 0);
    lemma_name_from(add_field(fields, name, value), other, 0);
    let added = add_field(fields, name, value);
    if other == name {
        match name_from(fields, name, 0) {
            Some(i) => {
                assert(added[i].0 == name);
            },
            None => {
                assert(added[fields.len() as int].0 == name);
            },
        }
    } else {
        match name_from(fields, other, 0) {
            Some(i) => {
                assert(added[i] == fields[i]);
            },
            None => {},
        }
    }
}

/// The value of a name is that of the first field with this name; a name has none
/// exactly when no field has it.
pub proof fn law_lookup(fields: Seq<(Seq<char>, Seq<char>)>, name: Seq<char>)
    ensures
        match lookup(fields, name) {
            Some(value) => exists|i: int|
                {
                    &&& 0 <= i < fields.len()
                    &&& #[trigger] fields[i] == (name, value)
                    &&& forall|j: int| 0 <= j < i ==> (#[trigger] fields[j]).0 != name
                },
            None => forall|j: int| 0 <= j < fields.len() ==> (#[trigger] fields[j]).0 != name,
        },
{
    lemma_name_from(fields, name, 0);
    if let Some(i) = name_from(fields, name, 0) {
        assert(fields[i] == (name, fields[i].1));
    }
}

/// A value that comes in for a new name goes to the end, and nothing else changes.
pub proof fn law_new_field(
    fields: Seq<(Seq<char>, Seq<char>)>,
    name: Seq<char>,
    value: Seq<char>,
)
    requires
        forall|j: int| 0 <= j < fields.len() ==> (#[trigger] fields[j]).0 != name,
    ensures
        add_field(fields, name, value) == fields.push((name, value)),
{
    lemma_name_from(fields, name, 0);
}

/// A value that comes in for a name that is known stands below the value that was
/// there, with a line feed between the two, or takes its place where it was empty.
/// Nothing else changes.
pub proof fn law_known_field(
    fields: Seq<(Seq<char>, Seq<char>)>,
    i: int,
    value: Seq<char>,
)
    requires
        0 <= i < fields.len(),
        forall|j: int| 0 <= j < i ==> (#[trigger] fields[j]).0 != fields[i].0,
    ensures
        add_field(fields, fields[i].0, value).len() == fields.len(),
        forall|j: int|
            0 <= j < fields.len() && j != i ==> #[trigger] add_field(fields, fields[i].0, value)[j]
                == fields[j],
        add_field(fields, fields[i].0, value)[i].0 == fields[i].0,
        fields[i].1.len() == 0 ==> add_field(fields, fields[i].0, value)[i].1 == value,
        fields[i].1.len() > 0 ==> add_field(fields, fields[i].0, value)[i].1 == fields[i].1
            + seq!['\n'] + value,
{
    lemma_name_from(fields, fields[i].0, 0);
    assert(name_from(fields, fields[i].0, 0) == Some(i));
    assert(fields[i].1.push('\n') + value =~= fields[i].1 + seq!['\n'] + value);
}

/// The pairs that strings hold, one by one.
pub proof fn law_pairs(entries: Seq<(String, String)>, i: int)
    requires
        0 <= i < entries.len(),
    ensures
        pairs(entries).len() == entries.len(),
        pairs(entries)[i].0 == entries[i].0@,
        pairs(entries)[i].1 == entries[i].1@,
{
}

/// The named values of a message. A name occurs once; values that came in for
/// the same name stand one per line.
#[derive(Debug)]
pub struct Fields {
    entries: Vec<(String, String)>,
}

impl View for Fields {
    type V = Seq<(Seq<char>, Seq<char>)>;

    closed spec fn view(&self) -> Seq<(Seq<char>, Seq<char>)> {
        pairs(self.entries@)
    }
}

impl Fields {
    /// A name occurs once.
    #[verifier::type_invariant]
    spec fn wf(&self) -> bool {
        names_distinct(pairs(self.entries@))
    }

    /// No fields.
    pub fn new() -> (fields: Self)
        ensures
            fields@ == Seq::<(Seq<char>, Seq<char>)>::empty(),
    {
        let fields = Fields { entries: Vec::new() };
        assert(fields@ =~= Seq::<(Seq<char>, Seq<char>)>::empty());
        fields
    }

    /// The position of `name`.
    fn position(&self, name: &str) -> (found: Option<usize>)
        ensures
            match found {
                Some(i) => name_from(self@, name@, 0) == Some(i as int),
                None => name_from(self@, name@, 0) is None,
            },
    {
        let wanted = name.to_owned();
        let mut i: usize = 0;
        while i < self.entries.len()
            invariant
                wanted@ == name@,
                i <= self.entries@.len(),
                name_from(self@, name@, 0) == name_from(self@, name@, i as int),
            decreases self.entries@.len() - i,
        {
            if self.entries[i].0 == wanted {
                return Some(i);
            }
            i += 1;
        }
        None
    }

    /// The value of `name`, if it has one.
    pub fn get(&self, name: &str) -> (value: Option<&String>)
        ensures
            match value {
                Some(v) => lookup(self@, name@) == Some(v@),
                None => lookup(self@, name@) is None,
            },
    {
        proof {
            lemma_name_from(self@, name@, 0);
        }
        match self.position(name) {
            Some(i) => Some(&self.entries[i].1),
            None => None,
        }
    }

    /// How many names there are.
    pub fn len(&self) -> (n: usize)
        ensures
            n == self@.len(),
    {
        self.entries.len()
    }

    /// The name at position `i`.
    pub fn name(&self, i: usize) -> (name: &str)
        requires
            i < self@.len(),
        ensures
            name@ == self@[i as int].0,
    {
        self.entries[i].0.as_str()
    }

    /// The value at position `i`.
    pub fn value(&self, i: usize) -> (value: &str)
        requires
            i < self@.len(),
        ensures
            value@ == self@[i as int].1,
    {
        self.entries[i].1.as_str()
    }

    /// Takes in one more value for `name`.
    pub fn add(&mut self, name: &str, value: &str)
        ensures
            final(self)@ == add_field(old(self)@, name@, value@),
    {
        proof {
            use_type_invariant(&*self);
            lemma_name_from(self@, name@, 0);
            lemma_add_field_distinct(self@, name@, value@);
        }
        let found = self.position(name);
        let mut entries: Vec<(String, String)> = Vec::new();
        std::mem::swap(&mut entries, &mut self.entries);
        let ghost before = pairs(entries@);
        match found {
            Some(i) => {
                let mut joined = entries[i].1.clone();
                if !joined.as_str().is_empty() {
                    joined.push('\n');
                }
                joined.append(value);
                proof {
                    assert(joined@ =~= continued(before[i as int].1, value@));
                }
                entries.set(i, (name.to_owned(), joined));
                assert(pairs(entries@) =~= add_field(before, name@, value@));
            },
            None => {
                entries.push((name.to_owned(), value.to_owned()));
                assert(pairs(entries@) =~= add_field(before, name@, value@));
            },
        }
        self.entries = entries;
    }
}

} // verus!
