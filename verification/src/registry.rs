//! The language configuration: three independent registries mapping
//! tag, block and filter names to their constructors, built once by
//! the host and read-only during parsing.
use vstd::prelude::*;

use crate::error::Error;
use crate::error::ErrorKind;
use crate::filters::BoundFilter;
use crate::filters::Compact;
use crate::filters::Concat;
use crate::filters::FilterArguments;
use crate::filters::First;
use crate::filters::Join;
use crate::filters::Last;
use crate::filters::MapValues;
use crate::filters::Reverse;
use crate::filters::Sort;
use crate::filters::SortNatural;
use crate::filters::Uniq;
use crate::filters::Where;

verus! {

broadcast use vstd::std_specs::vec::group_vec_axioms;

/// First match for a name among registry entries.
pub open spec fn entry_lookup<T>(entries: Seq<(String, T)>, name: Seq<char>) -> Option<T>
    decreases entries.len(),
{
    if entries.len() == 0 {
        None
    } else if entries[0].0@ == name {
        Some(entries[0].1)
    } else {
        entry_lookup(entries.skip(1), name)
    }
}

/// A mapping from names to constructors; registering a name again
/// replaces the earlier binding.
pub struct Registry<T> {
    entries: Vec<(String, T)>,
}

impl<T> Registry<T> {
    /// The registered bindings, latest first.
    pub closed spec fn entries_of(&self) -> Seq<(String, T)> {
        self.entries@
    }

    /// What a name is bound to.
    pub open spec fn spec_lookup(&self, name: Seq<char>) -> Option<T> {
        entry_lookup(self.entries_of(), name)
    }

    /// An empty registry.
    pub fn new() -> (r: Registry<T>)
        ensures
            forall|name: Seq<char>| r.spec_lookup(name) == None::<T>,
    {
        let r = Registry { entries: Vec::new() };
        proof {
            assert(r.entries_of().len() == 0);
        }
        r
    }

    /// Binds a name to a constructor, replacing any earlier binding of
    /// the same name; shadowing a built-in is not an error.
    pub fn register(&mut self, name: String, constructor: T)
        ensures
            final(self).spec_lookup(name@) == Some(constructor),
            forall|other: Seq<char>|
                other != name@ ==> final(self).spec_lookup(other) == old(self).spec_lookup(other),
    {
        let ghost old_entries = self.entries@;
        self.entries.insert(0, (name, constructor));
        proof {
            let new_entries = self.entries_of();
            assert(new_entries.skip(1) =~= old_entries);
            assert forall|other: Seq<char>|
                other != name@ implies self.spec_lookup(other) == old(self).spec_lookup(other) by {
                assert(entry_lookup(new_entries, other) == entry_lookup(
                    new_entries.skip(1),
                    other,
                ));
            }
        }
    }

    /// Looks a name up; the only query parsing uses.
    #[verifier::loop_isolation(false)]
    pub fn lookup(&self, name: &String) -> (r: Option<&T>)
        ensures
            match (r, self.spec_lookup(name@)) {
                (Some(x), Some(y)) => *x == y,
                (None, None) => true,
                _ => false,
            },
    {
        let ghost entries = self.entries@;
        proof {
            assert(entries.skip(0) =~= entries);
        }
        let mut i: usize = 0;
        while i < self.entries.len()
            invariant
                0 <= i <= self.entries.len(),
                entry_lookup(entries, name@) == entry_lookup(entries.skip(i as int), name@),
            decreases self.entries.len() - i,
        {
            proof {
                assert(entries.skip(i as int)[0] == entries[i as int]);
                assert(entries.skip(i as int).skip(1) =~= entries.skip(i as int + 1));
            }
            if self.entries[i].0 == *name {
                return Some(&self.entries[i].1);
            }
            i += 1;
        }
        proof {
            assert(entries.skip(i as int).len() == 0);
        }
        None
    }
}

/// A filter constructor of the catalog, as the registry holds it.
#[derive(Clone, Copy, Debug)]
pub enum FilterKind {
    Join(Join),
    Sort(Sort),
    SortNatural(SortNatural),
    Where(Where),
    Uniq(Uniq),
    Reverse(Reverse),
    MapValues(MapValues),
    Compact(Compact),
    Concat(Concat),
    First(First),
    Last(Last),
}

/// The parameter list a filter constructor declares.
pub open spec fn kind_params(k: &FilterKind) -> Seq<crate::filters::ParamV> {
    match k {
        FilterKind::Join(_) => crate::filters::join_params(),
        FilterKind::Sort(_) => crate::filters::sort_params(),
        FilterKind::SortNatural(_) => crate::filters::sort_params(),
        FilterKind::Where(_) => crate::filters::where_params(),
        FilterKind::MapValues(_) => crate::filters::map_params(),
        FilterKind::Compact(_) => crate::filters::sort_params(),
        FilterKind::Concat(_) => crate::filters::concat_params(),
        _ => Seq::empty(),
    }
}

impl FilterKind {
    /// Binds the supplied arguments with the named filter's parameter
    /// list; a malformed invocation fails here, at construction time,
    /// exactly when the binding is not clean.
    pub fn parse(&self, args: &FilterArguments) -> (r: Result<BoundFilter, Error>)
        ensures
            r is Ok <==> crate::filters::binds_ok(kind_params(self), args@),
            r matches Err(e) ==> e.kind == ErrorKind::Parse,
    {
        match self {
            FilterKind::Join(f) => Ok(BoundFilter::Join(f.parse(args)?)),
            FilterKind::Sort(f) => Ok(BoundFilter::Sort(f.parse(args)?)),
            FilterKind::SortNatural(f) => Ok(BoundFilter::Sort(f.parse(args)?)),
            FilterKind::Where(f) => Ok(BoundFilter::Where(f.parse(args)?)),
            FilterKind::Uniq(f) => Ok(BoundFilter::Uniq(f.parse(args)?)),
            FilterKind::Reverse(f) => Ok(BoundFilter::Reverse(f.parse(args)?)),
            FilterKind::MapValues(f) => Ok(BoundFilter::MapValues(f.parse(args)?)),
            FilterKind::Compact(f) => Ok(BoundFilter::Compact(f.parse(args)?)),
            FilterKind::Concat(f) => Ok(BoundFilter::Concat(f.parse(args)?)),
            FilterKind::First(f) => Ok(BoundFilter::First(f.parse(args)?)),
            FilterKind::Last(f) => Ok(BoundFilter::Last(f.parse(args)?)),
        }
    }
}

/// The language configuration: which names parse as tags, blocks and
/// filters. Built once, read-only during parsing, never consulted
/// during rendering.
pub struct Language {
    pub tags: Registry<crate::parser::TagKind>,
    pub blocks: Registry<crate::parser::BlockKind>,
    pub filters: Registry<FilterKind>,
}

impl Language {
    /// A configuration with no constructs registered.
    pub fn new() -> (r: Language)
        ensures
            forall|name: Seq<char>| r.tags.spec_lookup(name) == None::<crate::parser::TagKind>,
            forall|name: Seq<char>|
                r.blocks.spec_lookup(name) == None::<crate::parser::BlockKind>,
            forall|name: Seq<char>| r.filters.spec_lookup(name) == None::<FilterKind>,
    {
        Language { tags: Registry::new(), blocks: Registry::new(), filters: Registry::new() }
    }

    /// Registers a tag constructor.
    pub fn register_tag(&mut self, name: String, constructor: crate::parser::TagKind)
        ensures
            final(self).tags.spec_lookup(name@) == Some(constructor),
    {
        self.tags.register(name, constructor);
    }

    /// Registers a block constructor.
    pub fn register_block(&mut self, name: String, constructor: crate::parser::BlockKind)
        ensures
            final(self).blocks.spec_lookup(name@) == Some(constructor),
    {
        self.blocks.register(name, constructor);
    }

    /// Registers a filter constructor.
    pub fn register_filter(&mut self, name: String, constructor: FilterKind)
        ensures
            final(self).filters.spec_lookup(name@) == Some(constructor),
    {
        self.filters.register(name, constructor);
    }
}

} // verus!
