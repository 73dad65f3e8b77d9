//! MCP server configurations: one server, and the named collection of them.
use crate::text::same_text;
use std::collections::HashMap;
use vstd::prelude::*;

verus! {

/// How one MCP server is started or reached.
#[derive(Debug)]
pub struct McpServerConfig {
    pub command: String,
    pub args: Vec<String>,
    pub env: Option<HashMap<String, String>>,
    pub cwd: Option<String>,
    pub transport_type: Option<String>,
    pub url: Option<String>,
    pub timeout: Option<u64>,
    pub source: Option<String>,
    pub identifier: Option<String>,
    pub from_: Option<String>,
    pub from_id: Option<String>,
    pub disabled: bool,
}

/// The model of [`McpServerConfig`].
pub struct ServerModel {
    pub command: Seq<char>,
    pub args: Seq<Seq<char>>,
    pub env: Option<Map<Seq<char>, Seq<char>>>,
    pub cwd: Option<Seq<char>>,
    pub transport_type: Option<Seq<char>>,
    pub url: Option<Seq<char>>,
    pub timeout: Option<u64>,
    pub source: Option<Seq<char>>,
    pub identifier: Option<Seq<char>>,
    pub from_: Option<Seq<char>>,
    pub from_id: Option<Seq<char>>,
    pub disabled: bool,
}

impl View for McpServerConfig {
    type V = ServerModel;

    open spec fn view(&self) -> ServerModel {
        ServerModel {
            command: self.command@,
            args: self.args.deep_view(),
            env: self.env.deep_view(),
            cwd: self.cwd.deep_view(),
            transport_type: self.transport_type.deep_view(),
            url: self.url.deep_view(),
            timeout: self.timeout,
            source: self.source.deep_view(),
            identifier: self.identifier.deep_view(),
            from_: self.from_.deep_view(),
            from_id: self.from_id.deep_view(),
            disabled: self.disabled,
        }
    }
}

/// A server with nothing set: no command, no arguments, every optional field
/// absent, and enabled.
pub open spec fn blank_server() -> ServerModel {
    ServerModel {
        command: Seq::empty(),
        args: Seq::empty(),
        env: None,
        cwd: None,
        transport_type: None,
        url: None,
        timeout: None,
        source: None,
        identifier: None,
        from_: None,
        from_id: None,
        disabled: false,
    }
}

impl Default for McpServerConfig {
    fn default() -> (r: Self)
        ensures
            r@ == blank_server(),
    {
        let r = McpServerConfig {
            command: String::new(),
            args: Vec::new(),
            env: None,
            cwd: None,
            transport_type: None,
            url: None,
            timeout: None,
            source: None,
            identifier: None,
            from_: None,
            from_id: None,
            disabled: false,
        };
        assert(r.args.deep_view() =~= Seq::empty());
        r
    }
}

impl Clone for McpServerConfig {
    fn clone(&self) -> (r: Self)
        ensures
            r@ == self@,
    {
        let r = McpServerConfig {
            command: self.command.clone(),
            args: self.args.clone(),
            env: self.env.clone(),
            cwd: self.cwd.clone(),
            transport_type: self.transport_type.clone(),
            url: self.url.clone(),
            timeout: self.timeout,
            source: self.source.clone(),
            identifier: self.identifier.clone(),
            from_: self.from_.clone(),
            from_id: self.from_id.clone(),
            disabled: self.disabled,
        };
        proof {
            assert(r.args.deep_view() =~= self.args.deep_view());
            if self.env is Some {
                reveal(vstd::std_specs::hash::hash_map_deep_view_impl);
                assert((r.env->0)@ == (self.env->0)@);
                assert((r.env->0).deep_view() =~= (self.env->0).deep_view());
            }
        }
        r
    }
}

/// `name` is the name of an entry.
spec fn has_entry(entries: Seq<(String, McpServerConfig)>, name: Seq<char>) -> bool {
    exists|i: int| 0 <= i < entries.len() && (#[trigger] entries[i]).0@ == name
}

/// Where the entry of `name` stands.
spec fn entry_place(entries: Seq<(String, McpServerConfig)>, name: Seq<char>) -> int {
    choose|i: int| 0 <= i < entries.len() && (#[trigger] entries[i]).0@ == name
}

/// What the entries hold under each name.
spec fn entry_map(entries: Seq<(String, McpServerConfig)>) -> Map<Seq<char>, ServerModel> {
    Map::new(
        |name: Seq<char>| has_entry(entries, name),
        |name: Seq<char>| entries[entry_place(entries, name)].1@,
    )
}

/// No name occurs twice.
spec fn distinct_names(entries: Seq<(String, McpServerConfig)>) -> bool {
    forall|i: int, j: int|
        0 <= i < j < entries.len() ==> (#[trigger] entries[i]).0@ != (#[trigger] entries[j]).0@
}

/// The entry at `i` is what the entries hold under its name.
proof fn lemma_entry(entries: Seq<(String, McpServerConfig)>, i: int)
    requires
        distinct_names(entries),
        0 <= i < entries.len(),
    ensures
        entry_map(entries).contains_key(entries[i].0@),
        entry_map(entries)[entries[i].0@] == entries[i].1@,
{
    let name = entries[i].0@;
    let p = entry_place(entries, name);
    assert(has_entry(entries, name));
    assert(0 <= p < entries.len() && entries[p].0@ == name);
}

/// Without the entry at `i`, its name is gone and every other is as it was.
proof fn lemma_removed(entries: Seq<(String, McpServerConfig)>, i: int)
    requires
        distinct_names(entries),
        0 <= i < entries.len(),
    ensures
        distinct_names(entries.remove(i)),
        entry_map(entries.remove(i)) == entry_map(entries).remove(entries[i].0@),
{
    let rest = entries.remove(i);
    let name = entries[i].0@;
    assert forall|k: int, l: int| 0 <= k < l < rest.len() implies (#[trigger] rest[k]).0@ != (
    #[trigger] rest[l]).0@ by {
        let k0 = if k < i {
            k
        } else {
            k + 1
        };
        let l0 = if l < i {
            l
        } else {
            l + 1
        };
        assert(entries[k0].0@ != entries[l0].0@);
    }
    let want = entry_map(entries).remove(name);
    assert forall|n: Seq<char>|
        #![trigger has_entry(rest, n)]
        has_entry(rest, n) == want.contains_key(n) && (has_entry(rest, n) ==> entry_map(rest)[n]
            == want[n]) by {
        if has_entry(rest, n) {
            let k = entry_place(rest, n);
            let k0 = if k < i {
                k
            } else {
                k + 1
            };
            assert(entries[k0] == rest[k]);
            lemma_entry(entries, k0);
            lemma_entry(rest, k);
            if n == name {
                if k0 < i {
                    assert(entries[k0].0@ != entries[i].0@);
                } else {
                    assert(entries[i].0@ != entries[k0].0@);
                }
            }
        } else if has_entry(entries, n) && n != name {
            let k0 = entry_place(entries, n);
            let k = if k0 < i {
                k0
            } else {
                k0 - 1
            };
            assert(entries[k0] == rest[k]);
        }
    }
    assert(entry_map(rest) =~= want);
}

/// With an entry of a new name appended, that name holds it and every other is as it
/// was.
proof fn lemma_pushed(entries: Seq<(String, McpServerConfig)>, entry: (String, McpServerConfig))
    requires
        distinct_names(entries),
        !entry_map(entries).contains_key(entry.0@),
    ensures
        distinct_names(entries.push(entry)),
        entry_map(entries.push(entry)) == entry_map(entries).insert(entry.0@, entry.1@),
{
    let longer = entries.push(entry);
    let last = entries.len() as int;
    let key = entry.0@;
    assert forall|k: int| 0 <= k < last implies (#[trigger] longer[k]).0@ != key by {
        assert(longer[k] == entries[k]);
        lemma_entry(entries, k);
    }
    assert(longer[last] == entry);
    assert(distinct_names(longer)) by {
        assert forall|k: int, l: int| 0 <= k < l < longer.len() implies (#[trigger] longer[k]).0@
            != (#[trigger] longer[l]).0@ by {
            if l < last {
                assert(entries[k].0@ != entries[l].0@);
            }
        }
    }
    let want = entry_map(entries).insert(key, entry.1@);
    lemma_entry(longer, last);
    assert forall|n: Seq<char>|
        #![trigger has_entry(longer, n)]
        has_entry(longer, n) == want.contains_key(n) && (has_entry(longer, n) ==> entry_map(
            longer,
        )[n] == want[n]) by {
        if has_entry(longer, n) && n != key {
            let k = entry_place(longer, n);
            assert(entries[k] == longer[k]);
            lemma_entry(entries, k);
            lemma_entry(longer, k);
        } else if has_entry(entries, n) {
            let k = entry_place(entries, n);
            assert(entries[k] == longer[k]);
        }
    }
    assert(entry_map(longer) =~= want);
}

/// Entries that are the same one by one hold the same.
proof fn lemma_same_entries(
    a: Seq<(String, McpServerConfig)>,
    b: Seq<(String, McpServerConfig)>,
)
    requires
        distinct_names(a),
        a.len() == b.len(),
        forall|k: int| 0 <= k < a.len() ==> (#[trigger] b[k]).0@ == a[k].0@ && b[k].1@ == a[k].1@,
    ensures
        distinct_names(b),
        entry_map(b) == entry_map(a),
{
    assert forall|k: int, l: int| 0 <= k < l < b.len() implies (#[trigger] b[k]).0@ != (
    #[trigger] b[l]).0@ by {
        assert(a[k].0@ != a[l].0@);
    }
    assert forall|n: Seq<char>|
        #![trigger has_entry(b, n)]
        has_entry(b, n) == has_entry(a, n) && (has_entry(b, n) ==> entry_map(b)[n] == entry_map(
            a,
        )[n]) by {
        if has_entry(b, n) {
            let k = entry_place(b, n);
            assert(a[k].0@ == n);
            lemma_entry(a, k);
            lemma_entry(b, k);
        } else if has_entry(a, n) {
            let k = entry_place(a, n);
            assert(b[k].0@ == n);
        }
    }
    assert(entry_map(b) =~= entry_map(a));
}

/// MCP servers by name. Each name occurs once.
#[derive(Debug)]
pub struct ServerConfigs {
    entries: Vec<(String, McpServerConfig)>,
}

impl View for ServerConfigs {
    type V = Map<Seq<char>, ServerModel>;

    closed spec fn view(&self) -> Map<Seq<char>, ServerModel> {
        entry_map(self.entries@)
    }
}

impl Clone for ServerConfigs {
    fn clone(&self) -> (r: Self)
        ensures
            r@ == self@,
    {
        let mut entries: Vec<(String, McpServerConfig)> = Vec::new();
        let mut i: usize = 0;
        while i < self.entries.len()
            invariant
                i <= self.entries@.len(),
                entries@.len() == i,
                forall|k: int|
                    0 <= k < i ==> (#[trigger] entries@[k]).0@ == self.entries@[k].0@
                        && entries@[k].1@ == self.entries@[k].1@,
            decreases self.entries@.len() - i,
        {
            entries.push((self.entries[i].0.clone(), self.entries[i].1.clone()));
            i = i + 1;
        }
        proof {
            use_type_invariant(self);
            lemma_same_entries(self.entries@, entries@);
        }
        ServerConfigs { entries }
    }
}

impl ServerConfigs {
    /// No name occurs twice.
    #[verifier::type_invariant]
    spec fn has_distinct_names(&self) -> bool {
        distinct_names(self.entries@)
    }

    /// A collection without servers.
    pub fn new() -> (r: Self)
        ensures
            r@ == Map::<Seq<char>, ServerModel>::empty(),
    {
        let r = ServerConfigs { entries: Vec::new() };
        assert(r@ =~= Map::empty());
        r
    }

    /// Where the entry of `name` stands, if there is one.
    fn find(&self, name: &str) -> (r: Option<usize>)
        ensures
            r matches Some(i) ==> i < self.entries@.len() && self.entries@[i as int].0@ == name@,
            r is None ==> !self@.contains_key(name@),
            r is Some ==> self@.contains_key(name@),
    {
        let mut i: usize = 0;
        while i < self.entries.len()
            invariant
                i <= self.entries@.len(),
                forall|k: int| 0 <= k < i ==> (#[trigger] self.entries@[k]).0@ != name@,
            decreases self.entries@.len() - i,
        {
            if same_text(self.entries[i].0.as_str(), name) {
                assert(self.entries@[i as int].0@ == name@);
                assert(has_entry(self.entries@, name@));
                return Some(i);
            }
            i = i + 1;
        }
        assert(!has_entry(self.entries@, name@));
        None
    }

    /// How many servers there are.
    pub fn len(&self) -> (r: usize)
        ensures
            r == self@.len(),
    {
        proof {
            use_type_invariant(self);
            let names = Seq::new(self.entries@.len(), |i: int| self.entries@[i].0@);
            assert(names.no_duplicates()) by {
                assert forall|i: int, j: int|
                    0 <= i < names.len() && 0 <= j < names.len() && i != j implies names[i]
                    != names[j] by {
                    if i < j {
                        assert(self.entries@[i].0@ != self.entries@[j].0@);
                    } else {
                        assert(self.entries@[j].0@ != self.entries@[i].0@);
                    }
                }
            }
            names.unique_seq_to_set();
            assert forall|name: Seq<char>| #[trigger]
                names.to_set().contains(name) == self@.dom().contains(name) by {
                if names.to_set().contains(name) {
                    let i = choose|i: int| 0 <= i < names.len() && names[i] == name;
                    assert(self.entries@[i].0@ == name);
                    assert(has_entry(self.entries@, name));
                } else if has_entry(self.entries@, name) {
                    let i = entry_place(self.entries@, name);
                    assert(names[i] == name);
                    assert(names.contains(name));
                }
            }
            assert(self@.dom() =~= names.to_set());
        }
        self.entries.len()
    }

    /// Whether there is a server of that name.
    pub fn contains_key(&self, name: &str) -> (r: bool)
        ensures
            r == self@.contains_key(name@),
    {
        self.find(name).is_some()
    }

    /// The server of that name.
    pub fn get(&self, name: &str) -> (r: Option<&McpServerConfig>)
        ensures
            match r {
                Some(config) => self@.contains_pair(name@, config@),
                None => !self@.contains_key(name@),
            },
    {
        match self.find(name) {
            Some(i) => {
                proof {
                    use_type_invariant(self);
                    lemma_entry(self.entries@, i as int);
                }
                Some(&self.entries[i].1)
            },
            None => None,
        }
    }

    /// Takes the server of that name out.
    pub fn remove(&mut self, name: &str) -> (r: Option<McpServerConfig>)
        ensures
            final(self)@ == old(self)@.remove(name@),
            match r {
                Some(config) => old(self)@.contains_pair(name@, config@),
                None => !old(self)@.contains_key(name@),
            },
    {
        match self.find(name) {
            Some(i) => {
                proof {
                    use_type_invariant(&*self);
                    lemma_entry(self.entries@, i as int);
                    lemma_removed(self.entries@, i as int);
                }
                let mut entries: Vec<(String, McpServerConfig)> = Vec::new();
                std::mem::swap(&mut entries, &mut self.entries);
                let (_, config) = entries.remove(i);
                std::mem::swap(&mut entries, &mut self.entries);
                Some(config)
            },
            None => {
                assert(self@ =~= old(self)@.remove(name@));
                None
            },
        }
    }

    /// Puts a server under a name, and hands back the one that was there.
    pub fn insert(&mut self, name: String, config: McpServerConfig) -> (r: Option<McpServerConfig>)
        ensures
            final(self)@ == old(self)@.insert(name@, config@),
            match r {
                Some(previous) => old(self)@.contains_pair(name@, previous@),
                None => !old(self)@.contains_key(name@),
            },
    {
        let previous = self.remove(name.as_str());
        proof {
            use_type_invariant(&*self);
            lemma_pushed(self.entries@, (name, config));
            assert(old(self)@.remove(name@).insert(name@, config@) =~= old(self)@.insert(
                name@,
                config@,
            ));
        }
        let mut entries: Vec<(String, McpServerConfig)> = Vec::new();
        std::mem::swap(&mut entries, &mut self.entries);
        entries.push((name, config));
        std::mem::swap(&mut entries, &mut self.entries);
        previous
    }

    /// Adds the servers of `other` whose names are still free; a server that is
    /// already there stays as it is.
    pub fn fill_from(&mut self, other: ServerConfigs)
        ensures
            final(self)@ == other@.union_prefer_right(old(self)@),
    {
        let ghost before = self@;
        let ghost added = other@;
        let mut rest = other.into_entries();
        while rest.len() > 0
            invariant
                distinct_names(rest@),
                self@.union_prefer_right(before) == self@,
                entry_map(rest@).union_prefer_right(self@) == added.union_prefer_right(before),
            decreases rest@.len(),
        {
            let last: usize = rest.len() - 1;
            let ghost previous = rest@;
            let ghost held = self@;
            proof {
                lemma_entry(previous, last as int);
                lemma_removed(previous, last as int);
            }
            let (name, config) = rest.remove(last);
            let ghost key = name@;
            if !self.contains_key(name.as_str()) {
                self.insert(name, config);
            }
            proof {
                assert(entry_map(rest@).union_prefer_right(self@) =~= entry_map(
                    previous,
                ).union_prefer_right(held));
                assert(self@.union_prefer_right(before) =~= self@);
            }
        }
        proof {
            assert(entry_map(rest@) =~= Map::empty());
            assert(entry_map(rest@).union_prefer_right(self@) =~= self@);
        }
    }

    /// The servers with their names, each once.
    pub fn into_entries(self) -> (r: Vec<(String, McpServerConfig)>)
        ensures
            forall|i: int|
                0 <= i < r@.len() ==> self@.contains_pair((#[trigger] r@[i]).0@, r@[i].1@),
            forall|i: int, j: int|
                0 <= i < j < r@.len() ==> (#[trigger] r@[i]).0@ != (#[trigger] r@[j]).0@,
            forall|name: Seq<char>| #[trigger]
                self@.contains_key(name) ==> exists|i: int|
                    0 <= i < r@.len() && (#[trigger] r@[i]).0@ == name,
    {
        proof {
            use_type_invariant(&self);
            assert forall|i: int| 0 <= i < self.entries@.len() implies self@.contains_pair(
                (#[trigger] self.entries@[i]).0@,
                self.entries@[i].1@,
            ) by {
                lemma_entry(self.entries@, i);
            }
            assert forall|name: Seq<char>| #[trigger]
                self@.contains_key(name) implies exists|i: int|
                0 <= i < self.entries@.len() && (#[trigger] self.entries@[i]).0@ == name by {
                assert(has_entry(self.entries@, name));
            }
        }
        self.entries
    }
}

/// Nothing of a server is left out of its model.
pub proof fn the_model_of_a_server_has_every_field(server: McpServerConfig)
    ensures
        server@.command == server.command@,
        server@.args == server.args@.map_values(|arg: String| arg@),
        server@.env is Some <==> server.env is Some,
        server.env matches Some(env) ==> server@.env == Some(env.deep_view()),
        server.cwd matches Some(text) ==> server@.cwd == Some(text@),
        server.cwd is None ==> server@.cwd is None,
        server.transport_type matches Some(text) ==> server@.transport_type == Some(text@),
        server.transport_type is None ==> server@.transport_type is None,
        server.url matches Some(text) ==> server@.url == Some(text@),
        server.url is None ==> server@.url is None,
        server@.timeout == server.timeout,
        server.source matches Some(text) ==> server@.source == Some(text@),
        server.source is None ==> server@.source is None,
        server.identifier matches Some(text) ==> server@.identifier == Some(text@),
        server.identifier is None ==> server@.identifier is None,
        server.from_ matches Some(text) ==> server@.from_ == Some(text@),
        server.from_ is None ==> server@.from_ is None,
        server.from_id matches Some(text) ==> server@.from_id == Some(text@),
        server.from_id is None ==> server@.from_id is None,
        server@.disabled == server.disabled,
{
    assert(server@.args =~= server.args@.map_values(|arg: String| arg@));
}

/// A server with nothing set has no command and no arguments, nothing optional, and is
/// enabled.
pub proof fn a_blank_server_has_nothing_set()
    ensures
        blank_server().command.len() == 0,
        blank_server().args.len() == 0,
        blank_server().env is None,
        blank_server().cwd is None,
        blank_server().transport_type is None,
        blank_server().url is None,
        blank_server().timeout is None,
        blank_server().source is None,
        blank_server().identifier is None,
        blank_server().from_ is None,
        blank_server().from_id is None,
        !blank_server().disabled,
{
}

} // verus!
