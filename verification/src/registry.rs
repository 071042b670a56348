//! The command registry: commands stored by name, looked up and executed.

use vstd::prelude::*;
use vstd::string::StringExecFns;
use crate::command::Command;
use crate::error::CommandError;
use crate::metadata::{CommandMetadata, MetadataView};
use crate::parser::{parse_command_string, parse_spec, views};

verus! {

/// What the registry keeps of a registered command: its metadata (name,
/// syntax, short description, documentation), as the command gave them when
/// it was registered, and whether it is asynchronous, as it said then.
pub struct EntryView {
    pub metadata: MetadataView,
    pub is_async: bool,
}

/// The metadata of `c`, as its specification gives it.
pub open spec fn metadata_spec<C: Command + ?Sized>(c: &C) -> MetadataView {
    MetadataView { name: c.spec_name(), syntax: c.spec_syntax(), short: c.spec_short(), docs: c.spec_docs() }
}

/// Reads the metadata of `c` through its four text methods.
fn read_metadata<C: Command + ?Sized>(c: &C) -> (m: CommandMetadata)
    ensures
        c.obeys_command_spec() ==> m@ == metadata_spec(c),
{
    CommandMetadata::new(c.name(), c.syntax(), c.short(), c.docs())
}

/// A command as the registry holds it: the name it was registered under, the
/// command's metadata and asynchrony as read at registration, and the command
/// itself. It executes as the command it holds: its `spec_executes` is that
/// of the held command, and `execute` hands the arguments to the held
/// command and returns its result.
pub struct RegisteredCommand {
    name: String,
    metadata: CommandMetadata,
    is_async: bool,
    command: Box<dyn Command>,
}

impl RegisteredCommand {
    /// The name under which the command was registered.
    pub closed spec fn key(&self) -> Seq<char> {
        self.name@
    }

    /// What the registry keeps of the command.
    pub closed spec fn entry(&self) -> EntryView {
        EntryView { metadata: self.metadata@, is_async: self.is_async }
    }

    /// Returns the name under which the command was registered.
    pub fn registered_name(&self) -> (r: &str)
        ensures
            r@ == self.key(),
    {
        self.name.as_str()
    }
}

impl Command for RegisteredCommand {
    open spec fn obeys_command_spec(&self) -> bool {
        true
    }

    closed spec fn spec_executes(&self, args: Seq<Seq<char>>, r: Result<(), CommandError>) -> bool {
        (*self.command).spec_executes(args, r)
    }

    closed spec fn spec_name(&self) -> Seq<char> {
        self.metadata@.name
    }

    closed spec fn spec_syntax(&self) -> Seq<char> {
        self.metadata@.syntax
    }

    closed spec fn spec_short(&self) -> Seq<char> {
        self.metadata@.short
    }

    closed spec fn spec_docs(&self) -> Seq<char> {
        self.metadata@.docs
    }

    fn name(&self) -> (r: &str) {
        self.metadata.name()
    }

    fn syntax(&self) -> (r: &str) {
        self.metadata.syntax()
    }

    fn short(&self) -> (r: &str) {
        self.metadata.short()
    }

    fn docs(&self) -> (r: &str) {
        self.metadata.docs()
    }

    fn is_async(&self) -> (b: bool)
        ensures
            b == self.entry().is_async,
    {
        self.is_async
    }

    fn execute(&self, args: Vec<String>) -> Result<(), CommandError> {
        self.command.execute(args)
    }
}

impl RegisteredCommand {
    /// The metadata and asynchrony the registry keeps of the command, as the
    /// command's own methods give them.
    pub proof fn lemma_entry_is_metadata(&self)
        ensures
            self.entry().metadata == metadata_spec(self),
    {
    }
}

fn make_entry(name: String, metadata: CommandMetadata, is_async: bool, command: Box<dyn Command>) -> (e: RegisteredCommand)
    ensures
        e.key() == name@,
        e.entry() == (EntryView { metadata: metadata@, is_async }),
{
    RegisteredCommand { name, metadata, is_async, command }
}

spec fn names_of(entries: Seq<RegisteredCommand>) -> Seq<Seq<char>> {
    entries.map_values(|e: RegisteredCommand| e.key())
}

spec fn entries_of(entries: Seq<RegisteredCommand>) -> Seq<EntryView> {
    entries.map_values(|e: RegisteredCommand| e.entry())
}

/// The map from each of `names` to the entry at the same position.
pub open spec fn map_of(names: Seq<Seq<char>>, entries: Seq<EntryView>) -> Map<Seq<char>, EntryView> {
    Map::new(|k: Seq<char>| names.contains(k), |k: Seq<char>| entries[names.index_of(k)])
}

proof fn lemma_map_of_at(names: Seq<Seq<char>>, entries: Seq<EntryView>, i: int)
    requires
        names.no_duplicates(),
        0 <= i < names.len(),
    ensures
        names.index_of(names[i]) == i,
        map_of(names, entries).contains_key(names[i]),
        map_of(names, entries)[names[i]] == entries[i],
{
    assert(names.contains(names[i]));
    let j = names.index_of(names[i]);
    assert(names[j] == names[i]);
}

proof fn lemma_map_of_update(names: Seq<Seq<char>>, entries: Seq<EntryView>, i: int, v: EntryView)
    requires
        names.no_duplicates(),
        names.len() == entries.len(),
        0 <= i < names.len(),
    ensures
        map_of(names, entries.update(i, v)) == map_of(names, entries).insert(names[i], v),
{
    let m1 = map_of(names, entries.update(i, v));
    let m2 = map_of(names, entries).insert(names[i], v);
    assert forall|k: Seq<char>| #[trigger] m1.contains_key(k) <==> m2.contains_key(k) by {
    }
    assert forall|k: Seq<char>| m1.contains_key(k) implies #[trigger] m1[k] == m2[k] by {
        let j = choose|j: int| 0 <= j < names.len() && names[j] == k;
        lemma_map_of_at(names, entries.update(i, v), j);
        if j != i {
            lemma_map_of_at(names, entries, j);
        }
    }
    assert(m1 =~= m2);
}

proof fn lemma_map_of_push(names: Seq<Seq<char>>, entries: Seq<EntryView>, k0: Seq<char>, v: EntryView)
    requires
        names.no_duplicates(),
        names.len() == entries.len(),
        !names.contains(k0),
    ensures
        names.push(k0).no_duplicates(),
        map_of(names.push(k0), entries.push(v)) == map_of(names, entries).insert(k0, v),
{
    let n2 = names.push(k0);
    let e2 = entries.push(v);
    assert(n2.no_duplicates()) by {
        assert forall|a: int, b: int| 0 <= a < n2.len() && 0 <= b < n2.len() && a != b implies n2[a] != n2[b] by {
            if a < names.len() && b < names.len() {
            } else if a == names.len() {
                assert(n2[b] == names[b]);
            } else {
                assert(n2[a] == names[a]);
            }
        }
    }
    let m1 = map_of(n2, e2);
    let m2 = map_of(names, entries).insert(k0, v);
    assert forall|k: Seq<char>| #[trigger] m1.contains_key(k) <==> m2.contains_key(k) by {
        if names.contains(k) {
            let j = choose|j: int| 0 <= j < names.len() && names[j] == k;
            assert(n2[j] == k);
        }
        if n2.contains(k) {
            let j = choose|j: int| 0 <= j < n2.len() && n2[j] == k;
            if j < names.len() {
                assert(names[j] == k);
            }
        }
        if k == k0 {
            assert(n2[names.len() as int] == k0);
        }
    }
    assert forall|k: Seq<char>| m1.contains_key(k) implies #[trigger] m1[k] == m2[k] by {
        let j = choose|j: int| 0 <= j < n2.len() && n2[j] == k;
        lemma_map_of_at(n2, e2, j);
        if j < names.len() {
            assert(names[j] == k);
            lemma_map_of_at(names, entries, j);
        }
    }
    assert(m1 =~= m2);
}

/// `after` is `before` with `entry` registered under `name`, as
/// `register_named` and `register_command` leave the registry.
pub open spec fn registers(
    before: Map<Seq<char>, EntryView>,
    after: Map<Seq<char>, EntryView>,
    name: Seq<char>,
    entry: EntryView,
) -> bool {
    after == before.insert(name, entry)
}

/// The position of the last occurrence of `m` in `names`, or -1 where `m`
/// does not occur.
pub open spec fn last_index(names: Seq<Seq<char>>, m: Seq<char>) -> int
    decreases names.len(),
{
    if names.len() == 0 {
        -1
    } else if names.last() == m {
        names.len() - 1
    } else {
        last_index(names.drop_last(), m)
    }
}

proof fn lemma_last_index_push(names: Seq<Seq<char>>, x: Seq<char>, m: Seq<char>)
    ensures
        last_index(names.push(x), m) == (if x == m { names.len() as int } else { last_index(names, m) }),
{
    assert(names.push(x).drop_last() =~= names);
}

proof fn lemma_registrations_prefix(
    views: Seq<Map<Seq<char>, EntryView>>,
    names: Seq<Seq<char>>,
    entries: Seq<EntryView>,
    k: int,
)
    requires
        views.len() == names.len() + 1,
        entries.len() == names.len(),
        views[0] == Map::<Seq<char>, EntryView>::empty(),
        forall|i: int| 0 <= i < names.len() ==> #[trigger] registers(views[i], views[i + 1], names[i], entries[i]),
        0 <= k <= names.len(),
    ensures
        views[k].dom() == names.take(k).to_set(),
        forall|m: Seq<char>| #[trigger] views[k].contains_key(m) ==> views[k][m] == entries[last_index(names.take(k), m)],
    decreases k,
{
    if k == 0 {
        assert(views[0].dom() =~= names.take(0).to_set());
    } else {
        lemma_registrations_prefix(views, names, entries, k - 1);
        let i = k - 1;
        assert(registers(views[i], views[i + 1], names[i], entries[i]));
        assert(views[i + 1] == views[k]);
        assert(names.take(k) =~= names.take(k - 1).push(names[k - 1]));
        assert forall|x: Seq<char>| #[trigger] views[k].dom().contains(x) <==> names.take(k).to_set().contains(x) by {
            assert(views[k - 1].dom().contains(x) <==> names.take(k - 1).contains(x));
            if x == names[k - 1] {
                assert(names.take(k)[k - 1] == x);
            }
            if names.take(k - 1).contains(x) {
                let j = choose|j: int| 0 <= j < k - 1 && #[trigger] names.take(k - 1)[j] == x;
                assert(names.take(k)[j] == x);
            }
            if names.take(k).contains(x) {
                let j = choose|j: int| 0 <= j < k && #[trigger] names.take(k)[j] == x;
                if j < k - 1 {
                    assert(names.take(k - 1)[j] == x);
                }
            }
        }
        assert(views[k].dom() =~= names.take(k).to_set());
        assert forall|m: Seq<char>| #[trigger] views[k].contains_key(m) implies views[k][m] == entries[last_index(names.take(k), m)] by {
            lemma_last_index_push(names.take(k - 1), names[k - 1], m);
        }
    }
}

/// The main command registry that stores and executes commands.
///
/// Each command is stored under a name; registering a command under a name
/// that is already present replaces the earlier command.
pub struct Quark {
    entries: Vec<RegisteredCommand>,
}

impl View for Quark {
    type V = Map<Seq<char>, EntryView>;

    /// The registered names, each with what the registry keeps of the command
    /// registered under it.
    closed spec fn view(&self) -> Map<Seq<char>, EntryView> {
        map_of(self.names(), entries_of(self.entries@))
    }
}

impl Quark {
    /// The registered names, in the order in which they were first registered.
    pub closed spec fn names(&self) -> Seq<Seq<char>> {
        names_of(self.entries@)
    }

    /// The command registered under `name` (meaningful when `name` is registered).
    pub closed spec fn entry_of(&self, name: Seq<char>) -> RegisteredCommand {
        self.entries@[self.names().index_of(name)]
    }

    #[verifier::type_invariant]
    closed spec fn names_unique(&self) -> bool {
        self.names().no_duplicates()
    }

    /// With unique names, the names are the registry's keys, each once.
    proof fn lemma_names_are_keys(&self)
        requires
            self.names().no_duplicates(),
        ensures
            self.names().to_set() == self@.dom(),
            self.names().len() == self@.len(),
    {
        assert(self.names().to_set() =~= self@.dom());
        self.names().unique_seq_to_set();
    }

    /// Registration, as `register_named` and `register_command` perform it:
    /// when `after` is `before` with a command registered under `name`, then
    /// `name` is registered in `after` with that command's entry, every other
    /// name keeps its entry, and `after` holds one command more than `before`
    /// exactly when `name` was not registered before; registering a name
    /// again replaces its command and the count stays.
    pub proof fn lemma_register_then_lookup(before: &Quark, after: &Quark, name: Seq<char>, entry: EntryView)
        requires
            after@ == before@.insert(name, entry),
        ensures
            after@.contains_key(name),
            after@[name] == entry,
            forall|k: Seq<char>| k != name ==> (after@.contains_key(k) <==> before@.contains_key(k)),
            forall|k: Seq<char>| k != name && before@.contains_key(k) ==> after@[k] == before@[k],
            after@.len() == before@.len() + (if before@.contains_key(name) { 0int } else { 1int }),
    {
        assert(before@.dom().finite()) by {
            assert(before@.dom() =~= before.names().to_set());
        }
        if before@.contains_key(name) {
            assert(before@.insert(name, entry).dom() =~= before@.dom());
        }
    }

    /// A sequence of registrations, as `register_named` and `register_command`
    /// perform them: starting from an empty registry and registering an entry
    /// under each of `names` in turn, the registered names are exactly the
    /// distinct names among `names`, the number of registered commands is the
    /// number of distinct names, and each name holds the entry of its last
    /// registration.
    pub proof fn lemma_registrations(regs: Seq<Quark>, names: Seq<Seq<char>>, entries: Seq<EntryView>)
        requires
            regs.len() == names.len() + 1,
            entries.len() == names.len(),
            regs[0]@ == Map::<Seq<char>, EntryView>::empty(),
            forall|i: int| 0 <= i < names.len() ==> #[trigger] registers(regs[i]@, regs[i + 1]@, names[i], entries[i]),
        ensures
            regs.last()@.dom() == names.to_set(),
            regs.last()@.len() == names.to_set().len(),
            forall|m: Seq<char>| #[trigger] regs.last()@.contains_key(m) ==> regs.last()@[m] == entries[last_index(names, m)],
    {
        let views = Seq::new(regs.len(), |i: int| regs[i]@);
        assert forall|i: int| 0 <= i < names.len() implies #[trigger] registers(views[i], views[i + 1], names[i], entries[i]) by {
            assert(registers(regs[i]@, regs[i + 1]@, names[i], entries[i]));
        }
        lemma_registrations_prefix(views, names, entries, names.len() as int);
        assert(names.take(names.len() as int) =~= names);
        assert(views[names.len() as int] == regs.last()@);
    }

    /// Creates a new empty command registry.
    pub fn new() -> (q: Self)
        ensures
            q@ == Map::<Seq<char>, EntryView>::empty(),
            q.names() == Seq::<Seq<char>>::empty(),
    {
        let q = Quark { entries: Vec::new() };
        assert(q.names() =~= Seq::<Seq<char>>::empty());
        assert(q@ =~= Map::<Seq<char>, EntryView>::empty());
        q
    }

    /// The position of `name` among the entries, if it is registered.
    fn find(&self, name: &String) -> (r: Option<usize>)
        ensures
            match r {
                Some(i) => i < self.names().len() && self.names()[i as int] == name@
                    && self@.contains_key(name@) && self@[name@] == self.entries@[i as int].entry()
                    && self.entries@[i as int] == self.entry_of(name@),
                None => !self.names().contains(name@) && !self@.contains_key(name@),
            },
    {
        proof {
            use_type_invariant(self);
        }
        let mut i: usize = 0;
        while i < self.entries.len()
            invariant
                i <= self.entries@.len(),
                self.names().no_duplicates(),
                forall|j: int| 0 <= j < i ==> self.names()[j] != name@,
            decreases self.entries@.len() - i,
        {
            if self.entries[i].name == *name {
                proof {
                    lemma_map_of_at(self.names(), entries_of(self.entries@), i as int);
                }
                return Some(i);
            }
            i = i + 1;
        }
        None
    }

    /// Stores `command` under `name` with the entry `metadata`, `is_async`,
    /// replacing any command already stored under `name`.
    fn insert_entry(&mut self, name: String, metadata: CommandMetadata, is_async: bool, command: Box<dyn Command>)
        ensures
            final(self)@ == old(self)@.insert(name@, EntryView { metadata: metadata@, is_async }),
            final(self).names() == (if old(self).names().contains(name@) {
                old(self).names()
            } else {
                old(self).names().push(name@)
            }),
            final(self).entry_of(name@).key() == name@,
            forall|k: Seq<char>| k != name@ && old(self)@.contains_key(k) ==> final(self).entry_of(k) == old(self).entry_of(k),
    {
        proof {
            use_type_invariant(&*self);
        }
        let ghost old_names = self.names();
        let ghost old_entries = entries_of(self.entries@);
        let ghost key = name@;
        let ghost v = EntryView { metadata: metadata@, is_async };
        let ghost old_vec = self.entries@;
        let ghost old_view = self@;
        let found = self.find(&name);
        let e = make_entry(name, metadata, is_async, command);
        let mut entries = Vec::new();
        core::mem::swap(&mut entries, &mut self.entries);
        match found {
            Some(i) => {
                entries.set(i, e);
                assert(names_of(entries@) =~= old_names);
                assert(entries_of(entries@) =~= old_entries.update(i as int, v));
                proof {
                    lemma_map_of_update(old_names, old_entries, i as int, v);
                }
            },
            None => {
                entries.push(e);
                assert(names_of(entries@) =~= old_names.push(key));
                assert(entries_of(entries@) =~= old_entries.push(v));
                proof {
                    lemma_map_of_push(old_names, old_entries, key, v);
                }
            },
        }
        self.entries = entries;
        proof {
            let new_names = self.names();
            assert(new_names.no_duplicates());
            assert(self@ == old_view.insert(key, v));
            assert(self@.contains_key(key));
            assert(new_names.contains(key));
            let p = choose|p: int| 0 <= p < new_names.len() && new_names[p] == key;
            lemma_map_of_at(new_names, entries_of(self.entries@), p);
            assert(self.entries@[p].key() == names_of(self.entries@)[p]);
            assert forall|k: Seq<char>| k != key && old_names.contains(k) implies self.entry_of(k) == old_vec[old_names.index_of(k)] by {
                let j = choose|j: int| 0 <= j < old_names.len() && old_names[j] == k;
                lemma_map_of_at(old_names, old_entries, j);
                assert(new_names[j] == k);
                lemma_map_of_at(new_names, entries_of(self.entries@), j);
                assert(self.entries@[j] == old_vec[j]);
            }
        }
    }

    /// Registers `command` under `name`, replacing any command already
    /// registered under that name. The registry keeps the command's metadata
    /// and whether it is asynchronous, as the command gives them now (the
    /// recorded asynchrony is what the command's own `is_async` returned); the
    /// commands registered under other names stay as they were.
    pub fn register_named<C: Command + 'static>(&mut self, name: String, command: Box<C>)
        ensures
            exists|m: MetadataView, a: bool| {
                &&& call_ensures(C::is_async, (&*command,), a)
                &&& final(self)@ == old(self)@.insert(name@, EntryView { metadata: m, is_async: a })
                &&& (*command).obeys_command_spec() ==> m == metadata_spec(&*command)
            },
            final(self).entry_of(name@).key() == name@,
            forall|k: Seq<char>| k != name@ && old(self)@.contains_key(k) ==> final(self).entry_of(k) == old(self).entry_of(k),
    {
        let metadata = read_metadata(&*command);
        let is_async = command.is_async();
        self.insert_entry(name, metadata, is_async, command);
    }

    /// Registers a command under the name that its `name()` returns,
    /// replacing any command already registered under that name. The registry
    /// keeps the command's metadata and whether it is asynchronous, as the
    /// command gives them now; the commands registered under other names stay
    /// as they were.
    pub fn register_command<C: Command + 'static>(&mut self, command: C)
        ensures
            exists|m: MetadataView, a: bool| {
                &&& call_ensures(C::is_async, (&command,), a)
                &&& final(self)@ == old(self)@.insert(m.name, EntryView { metadata: m, is_async: a })
                &&& command.obeys_command_spec() ==> m == metadata_spec(&command)
                &&& final(self).entry_of(m.name).key() == m.name
                &&& forall|k: Seq<char>| k != m.name && old(self)@.contains_key(k) ==> final(self).entry_of(k) == old(self).entry_of(k)
            },
    {
        let metadata = read_metadata(&command);
        let is_async = command.is_async();
        let name = String::from_str(metadata.name());
        self.insert_entry(name, metadata, is_async, Box::new(command));
    }

    /// Parses `input` and finds the command it names: the command's name and
    /// the arguments to hand it.
    pub fn resolve(&self, input: &str) -> (r: Result<(String, Vec<String>), CommandError>)
        ensures
            match parse_spec(input@) {
                Err(msg) => r matches Err(CommandError::ParseError(m)) && m@ == msg,
                Ok((name, args)) => if self@.contains_key(name) {
                    r matches Ok((n, a)) && n@ == name && views(a@) == args
                } else {
                    r matches Err(CommandError::NotFound(n)) && n@ == name
                },
            },
    {
        let (name, args) = match parse_command_string(input) {
            Ok(p) => p,
            Err(e) => return Err(e),
        };
        match self.find(&name) {
            Some(_) => Ok((name, args)),
            None => Err(CommandError::NotFound(name)),
        }
    }

    /// Executes a command synchronously from a command string.
    ///
    /// The string is parsed into a name and arguments; the command registered
    /// under that name is executed with the arguments and its result is
    /// returned as it is (`spec_executes` of the entry, which is that of the
    /// command it holds). A command that said it was asynchronous when it was
    /// registered (the `is_async` recorded in its entry) is refused with
    /// [`CommandError::RequiresAsyncRuntime`] and not executed.
    pub fn run(&self, input: &str) -> (r: Result<(), CommandError>)
        ensures
            match parse_spec(input@) {
                Err(msg) => r matches Err(CommandError::ParseError(m)) && m@ == msg,
                Ok((name, args)) => {
                    &&& !self@.contains_key(name) ==> (r matches Err(CommandError::NotFound(n)) && n@ == name)
                    &&& self@.contains_key(name) && self@[name].is_async ==> (r matches Err(CommandError::RequiresAsyncRuntime))
                    &&& self@.contains_key(name) && !self@[name].is_async ==> self.entry_of(name).spec_executes(args, r)
                },
            },
            r is Ok ==> (parse_spec(input@) matches Ok((name, args)) && self@.contains_key(name)
                && !self@[name].is_async),
    {
        let (name, args) = match self.resolve(input) {
            Ok(p) => p,
            Err(e) => return Err(e),
        };
        match self.find(&name) {
            Some(i) => {
                let entry = &self.entries[i];
                if entry.is_async() {
                    return Err(CommandError::RequiresAsyncRuntime);
                }
                entry.execute(args)
            },
            None => Err(CommandError::NotFound(name)),
        }
    }

    /// Returns all registered commands, in the order of their first registration.
    pub fn list(&self) -> (r: Vec<&RegisteredCommand>)
        ensures
            r@.len() == self.names().len(),
            r@.len() == self@.len(),
            self.names().no_duplicates(),
            self.names().to_set() == self@.dom(),
            forall|i: int| 0 <= i < r@.len() ==> (#[trigger] r@[i]).key() == self.names()[i]
                && r@[i].entry() == self@[self.names()[i]] && *r@[i] == self.entry_of(self.names()[i]),
    {
        proof {
            use_type_invariant(self);
            self.lemma_names_are_keys();
        }
        let mut r: Vec<&RegisteredCommand> = Vec::new();
        let mut i: usize = 0;
        while i < self.entries.len()
            invariant
                i <= self.entries@.len(),
                r@.len() == i,
                self.names().no_duplicates(),
                forall|j: int| 0 <= j < i ==> (#[trigger] r@[j]).key() == self.names()[j]
                    && r@[j].entry() == self@[self.names()[j]] && *r@[j] == self.entry_of(self.names()[j]),
            decreases self.entries@.len() - i,
        {
            proof {
                lemma_map_of_at(self.names(), entries_of(self.entries@), i as int);
            }
            r.push(&self.entries[i]);
            i = i + 1;
        }
        r
    }

    /// Returns the documentation of the command registered under `name`, as
    /// the command gave it when it was registered, or `None` if no command is
    /// registered under it.
    pub fn get_docs(&self, name: &str) -> (r: Option<&str>)
        ensures
            r is Some <==> self@.contains_key(name@),
            r matches Some(d) ==> d@ == self@[name@].metadata.docs,
    {
        let key = String::from_str(name);
        match self.find(&key) {
            Some(i) => Some(self.entries[i].metadata.docs()),
            None => None,
        }
    }

    /// Returns the number of registered commands.
    pub fn len(&self) -> (n: usize)
        ensures
            n == self@.len(),
            n == self.names().len(),
    {
        proof {
            use_type_invariant(self);
            self.lemma_names_are_keys();
        }
        self.entries.len()
    }

    /// Returns `true` if no commands are registered.
    pub fn is_empty(&self) -> (b: bool)
        ensures
            b == (self@.len() == 0),
    {
        self.len() == 0
    }
}

impl Default for Quark {
    fn default() -> (q: Self)
        ensures
            q@ == Map::<Seq<char>, EntryView>::empty(),
    {
        Quark::new()
    }
}

} // verus!
