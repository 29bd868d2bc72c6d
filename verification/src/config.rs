//! How the query cache is set up.

use vstd::prelude::*;

use crate::column::{Column, ColumnSet, ColumnView};

verus! {

/// Settings of the query cache, and the cache.
#[derive(Debug)]
pub struct QueryCacheConfig<C> {
    default_temporal_column: Column,
    temporal_columns: ColumnSet,
    group_by_functions: Vec<String>,
    override_now: Option<i64>,
    cache: C,
}

/// The settings of the query cache.
pub struct ConfigView {
    /// The temporal column of queries that do not group by one.
    pub default_temporal_column: ColumnView,
    /// The columns that hold the time of a row.
    pub temporal_columns: Set<ColumnView>,
    /// The functions that may be applied to a temporal column in a group by.
    pub group_by_functions: Set<Seq<char>>,
    /// What to take for the current time.
    pub override_now: Option<i64>,
}

/// The text is among those listed.
spec fn listed(texts: Seq<String>, text: Seq<char>) -> bool {
    exists|i: int| 0 <= i < texts.len() && (#[trigger] texts[i])@ == text
}

impl<C> View for QueryCacheConfig<C> {
    type V = ConfigView;

    closed spec fn view(&self) -> ConfigView {
        ConfigView {
            default_temporal_column: self.default_temporal_column@,
            temporal_columns: self.temporal_columns@,
            group_by_functions: Set::new(
                |name: Seq<char>| listed(self.group_by_functions@, name),
            ),
            override_now: self.override_now,
        }
    }
}

impl<C> QueryCacheConfig<C> {
    /// The default temporal column is one of the temporal columns.
    #[verifier::type_invariant]
    spec fn default_is_temporal(self) -> bool {
        self.temporal_columns@.contains(self.default_temporal_column@)
    }

    /// The cache that results are stored in.
    pub closed spec fn the_cache(&self) -> C {
        self.cache
    }

    /// Settings with one temporal column and no group by function.
    pub fn new(default_temporal_column: Column, cache: C) -> (config: Self)
        ensures
            config@ == (ConfigView {
                default_temporal_column: default_temporal_column@,
                temporal_columns: set![default_temporal_column@],
                group_by_functions: Set::empty(),
                override_now: None,
            }),
            config.the_cache() == cache,
    {
        let temporal_columns = ColumnSet::of(default_temporal_column.clone());
        let config = QueryCacheConfig {
            default_temporal_column,
            temporal_columns,
            group_by_functions: Vec::new(),
            override_now: None,
            cache,
        };
        assert(config@.group_by_functions =~= Set::<Seq<char>>::empty());
        config
    }

    /// The settings with a further temporal column.
    pub fn with_temporal_column(self, column: Column) -> (config: Self)
        ensures
            config@ == (ConfigView {
                temporal_columns: self@.temporal_columns.insert(column@),
                ..self@
            }),
            config.the_cache() == self.the_cache(),
    {
        proof {
            use_type_invariant(&self);
        }
        let QueryCacheConfig {
            default_temporal_column,
            temporal_columns,
            group_by_functions,
            override_now,
            cache,
        } = self;
        let mut columns = temporal_columns;
        columns.insert(column);
        QueryCacheConfig {
            default_temporal_column,
            temporal_columns: columns,
            group_by_functions,
            override_now,
            cache,
        }
    }

    /// The settings with a further group by function.
    pub fn with_group_by_function(self, name: &str) -> (config: Self)
        ensures
            config@ == (ConfigView {
                group_by_functions: self@.group_by_functions.insert(name@),
                ..self@
            }),
            config.the_cache() == self.the_cache(),
    {
        proof {
            use_type_invariant(&self);
        }
        let ghost before = self.group_by_functions@;
        let QueryCacheConfig {
            default_temporal_column,
            temporal_columns,
            group_by_functions,
            override_now,
            cache,
        } = self;
        let mut functions = group_by_functions;
        functions.push(name.to_string());
        let config = QueryCacheConfig {
            default_temporal_column,
            temporal_columns,
            group_by_functions: functions,
            override_now,
            cache,
        };
        proof {
            let after = config.group_by_functions@;
            assert forall|text: Seq<char>|
                listed(after, text) == (listed(before, text) || text == name@) by {
                if listed(before, text) {
                    let i = choose|i: int| 0 <= i < before.len() && (#[trigger] before[i])@ == text;
                    assert(after[i]@ == text);
                }
                assert(after[before.len() as int]@ == name@);
            }
            assert(config@.group_by_functions =~= self@.group_by_functions.insert(name@));
        }
        config
    }

    /// The settings with another value for the current time, or with none.
    pub fn with_override_now(self, override_now: Option<i64>) -> (config: Self)
        ensures
            config@ == (ConfigView { override_now, ..self@ }),
            config.the_cache() == self.the_cache(),
    {
        proof {
            use_type_invariant(&self);
        }
        let QueryCacheConfig {
            default_temporal_column,
            temporal_columns,
            group_by_functions,
            override_now: _,
            cache,
        } = self;
        QueryCacheConfig {
            default_temporal_column,
            temporal_columns,
            group_by_functions,
            override_now,
            cache,
        }
    }

    /// Whether the function may be applied to a temporal column in a group by.
    pub fn allow_group_by_function(&self, name: &str) -> (allowed: bool)
        ensures
            allowed == self@.group_by_functions.contains(name@),
    {
        let wanted = name.to_string();
        let mut i: usize = 0;
        while i < self.group_by_functions.len()
            invariant
                i <= self.group_by_functions@.len(),
                wanted@ == name@,
                forall|j: int| 0 <= j < i ==> (#[trigger] self.group_by_functions@[j])@ != name@,
            decreases self.group_by_functions@.len() - i,
        {
            if self.group_by_functions[i] == wanted {
                return true;
            }
            i = i + 1;
        }
        false
    }

    /// Whether the column holds the time of a row.
    pub fn allow_temporal_column(&self, column: &Column) -> (allowed: bool)
        ensures
            allowed == self@.temporal_columns.contains(column@),
    {
        self.temporal_columns.contains(column)
    }

    /// The temporal column of queries that do not group by one; it is always allowed.
    pub fn default_temporal_column(&self) -> (column: &Column)
        ensures
            column@ == self@.default_temporal_column,
            self@.temporal_columns.contains(column@),
    {
        proof {
            use_type_invariant(self);
        }
        &self.default_temporal_column
    }

    /// The columns that hold the time of a row.
    pub fn temporal_columns(&self) -> (columns: &ColumnSet)
        ensures
            columns@ == self@.temporal_columns,
    {
        &self.temporal_columns
    }

    /// The current time for a query that started at `query_start`, in nanoseconds since the epoch:
    /// the one that was set, where one was.
    pub fn now(&self, query_start: Option<i64>) -> (now: i64)
        requires
            self@.override_now is Some || query_start is Some,
        ensures
            now == match self@.override_now {
                Some(now) => now,
                None => query_start->0,
            },
    {
        match self.override_now {
            Some(now) => now,
            None => query_start.unwrap(),
        }
    }

    /// What was set for the current time.
    pub fn override_now(&self) -> (now: Option<i64>)
        ensures
            now == self@.override_now,
    {
        self.override_now
    }

    /// The cache.
    pub fn cache(&self) -> (cache: &C)
        ensures
            *cache == self.the_cache(),
    {
        &self.cache
    }
}

} // verus!
