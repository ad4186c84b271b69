//! The server registry's mutations and lookups: add with uniqueness,
//! remove by a set of names, list, and first-match lookup. Every operation
//! here works on an in-memory configuration; the binary wraps each one in
//! a fresh load-mutate-store cycle against the backing file.
use vstd::prelude::*;

use crate::Quirk;
use crate::Server;
use crate::ServerView;
use crate::configfile::Configuration;
use crate::error::Error;
use crate::servers_view;

verus! {

/// The server-management subcommands.
pub enum ServerCommand {
    Add(AddArgs),
    Remove(RemoveArgs),
    List(ListArgs),
}

/// Arguments of `server add`.
pub struct AddArgs {
    pub name: String,
    pub address: String,
    pub password: String,
    pub quirks: Vec<Quirk>,
}

/// Arguments of `server remove`.
pub struct RemoveArgs {
    pub names: Vec<String>,
}

/// Arguments of `server list`.
pub struct ListArgs {
    pub show_passwords: bool,
}

/// Whether some record in `rs` carries exactly the name `name`.
pub open spec fn has_server_named(rs: Seq<ServerView>, name: Seq<char>) -> bool {
    exists|i: int| 0 <= i < rs.len() && rs[i].name == name
}

/// Whether `name` is one of the strings in `names`.
pub open spec fn name_listed(names: Seq<String>, name: Seq<char>) -> bool {
    exists|i: int| 0 <= i < names.len() && names[i]@ == name
}

/// The records of `rs` that survive removing every name in `names`:
/// exactly the records whose name is not listed, in their stored order.
pub open spec fn kept_servers(rs: Seq<ServerView>, names: Seq<String>) -> Seq<ServerView> {
    rs.filter(|r: ServerView| !name_listed(names, r.name))
}

/// The registry's well-formedness: no two records share a name. Enforced
/// on insert, not on load — a corrupted backing file may break it, and
/// then the first match wins on lookup.
pub open spec fn unique_names(rs: Seq<ServerView>) -> bool {
    forall|i: int, j: int| 0 <= i < j < rs.len() ==> rs[i].name != rs[j].name
}

/// Law: appending a record whose name is not yet present keeps the
/// registry's names unique. With `run_add`'s contract, every successful
/// add preserves the invariant.
pub proof fn lemma_add_keeps_unique(rs: Seq<ServerView>, v: ServerView)
    requires
        unique_names(rs),
        !has_server_named(rs, v.name),
    ensures
        unique_names(rs.push(v)),
{
    assert forall|i: int, j: int| 0 <= i < j < rs.push(v).len() implies rs.push(v)[i].name
        != rs.push(v)[j].name by {
        if j < rs.len() {
            assert(rs[i].name != rs[j].name);
        } else {
            assert(!(0 <= i < rs.len() && rs[i].name == v.name));
        }
    }
}

/// Law: removal keeps the registry's names unique, and never invents a
/// record: every surviving record carries a name the registry already
/// had.
pub proof fn lemma_remove_keeps_unique(rs: Seq<ServerView>, names: Seq<String>)
    requires
        unique_names(rs),
    ensures
        unique_names(kept_servers(rs, names)),
        forall|k: int|
            0 <= k < kept_servers(rs, names).len() ==> has_server_named(
                rs,
                #[trigger] kept_servers(rs, names)[k].name,
            ),
    decreases rs.len(),
{
    if rs.len() == 0 {
        lemma_kept_empty(names);
    } else {
        let dl = rs.drop_last();
        let v = rs.last();
        assert(dl.push(v) =~= rs);
        assert(unique_names(dl));
        lemma_remove_keeps_unique(dl, names);
        lemma_kept_push(dl, names, v);
        let kept = kept_servers(rs, names);
        if !name_listed(names, v.name) {
            assert(kept == kept_servers(dl, names).push(v));
            assert forall|k: int| 0 <= k < kept.len() implies has_server_named(
                rs,
                kept[k].name,
            ) by {
                if k < kept.len() - 1 {
                    assert(has_server_named(dl, kept_servers(dl, names)[k].name));
                    let w = choose|w: int| 0 <= w < dl.len() && dl[w].name == kept[k].name;
                    assert(rs[w].name == kept[k].name);
                } else {
                    assert(rs[rs.len() - 1].name == v.name);
                }
            }
            assert forall|i: int, j: int| 0 <= i < j < kept.len() implies kept[i].name
                != kept[j].name by {
                if j < kept.len() - 1 {
                    assert(kept_servers(dl, names)[i].name != kept_servers(dl, names)[j].name);
                } else {
                    assert(has_server_named(dl, kept_servers(dl, names)[i].name));
                    let w = choose|w: int| 0 <= w < dl.len() && dl[w].name == kept[i].name;
                    assert(rs[w].name != rs[rs.len() - 1].name);
                }
            }
        } else {
            assert(kept == kept_servers(dl, names));
            assert forall|k: int| 0 <= k < kept.len() implies has_server_named(
                rs,
                kept[k].name,
            ) by {
                assert(has_server_named(dl, kept_servers(dl, names)[k].name));
                let w = choose|w: int| 0 <= w < dl.len() && dl[w].name == kept[k].name;
                assert(rs[w].name == kept[k].name);
            }
        }
    }
}

/// The first record of `rs` carrying `name`, if any.
pub open spec fn find_spec(rs: Seq<ServerView>, name: Seq<char>) -> Option<ServerView>
    decreases rs.len(),
{
    if rs.len() == 0 {
        None
    } else if rs[0].name == name {
        Some(rs[0])
    } else {
        find_spec(rs.drop_first(), name)
    }
}

proof fn lemma_find_spec_first(rs: Seq<ServerView>, name: Seq<char>, i: int)
    requires
        0 <= i < rs.len(),
        forall|j: int| 0 <= j < i ==> rs[j].name != name,
        rs[i].name == name,
    ensures
        find_spec(rs, name) == Some(rs[i]),
    decreases i,
{
    if i > 0 {
        assert(forall|j: int| 0 <= j < i - 1 ==> rs.drop_first()[j].name != name);
        lemma_find_spec_first(rs.drop_first(), name, i - 1);
        assert(rs.drop_first()[i - 1] == rs[i]);
    }
}

proof fn lemma_find_spec_none(rs: Seq<ServerView>, name: Seq<char>)
    requires
        forall|j: int| 0 <= j < rs.len() ==> rs[j].name != name,
    ensures
        find_spec(rs, name) is None,
    decreases rs.len(),
{
    if rs.len() > 0 {
        assert(forall|j: int| 0 <= j < rs.drop_first().len() ==> rs.drop_first()[j].name != name);
        lemma_find_spec_none(rs.drop_first(), name);
    }
}

proof fn lemma_kept_push(rs: Seq<ServerView>, names: Seq<String>, v: ServerView)
    ensures
        kept_servers(rs.push(v), names) == if !name_listed(names, v.name) {
            kept_servers(rs, names).push(v)
        } else {
            kept_servers(rs, names)
        },
{
    reveal_with_fuel(Seq::filter, 2);
    assert(rs.push(v).drop_last() =~= rs);
    assert(rs.push(v).last() == v);
}

proof fn lemma_kept_empty(names: Seq<String>)
    ensures
        kept_servers(Seq::<ServerView>::empty(), names) == Seq::<ServerView>::empty(),
{
    reveal_with_fuel(Seq::filter, 1);
}

fn contains_name(names: &Vec<String>, name: &String) -> (r: bool)
    ensures
        r == name_listed(names@, name@),
{
    let mut i: usize = 0;
    while i < names.len()
        invariant
            0 <= i <= names.len(),
            forall|j: int| 0 <= j < i ==> names@[j]@ != name@,
        decreases names.len() - i,
    {
        if names[i] == *name {
            return true;
        }
        i = i + 1;
    }
    false
}

/// Adds a new record to the registry. If any existing record already
/// carries the same name, fails with `ServerAlreadyExists` and leaves the
/// registry exactly as it was; otherwise appends the new record at the end.
pub fn run_add(args: AddArgs, config: &mut Configuration) -> (r: Result<(), Error>)
    ensures
        has_server_named(old(config)@, args.name@) ==> (r matches Err(e) && e
            is ServerAlreadyExists && *final(config) == *old(config)),
        !has_server_named(old(config)@, args.name@) ==> r is Ok && final(config)@ == old(config)@.push(
            ServerView {
                name: args.name@,
                address: args.address@,
                password: args.password@,
                quirks: args.quirks@,
            },
        ),
{
    let n = config.known_servers.len();
    let mut i: usize = 0;
    while i < n
        invariant
            n == config.known_servers@.len(),
            0 <= i <= n,
            forall|j: int| 0 <= j < i ==> config.known_servers@[j]@.name != args.name@,
        decreases n - i,
    {
        if config.known_servers[i].name == args.name {
            proof {
                assert(config@[i as int] == config.known_servers@[i as int]@);
                assert(has_server_named(config@, args.name@));
            }
            return Err(Error::ServerAlreadyExists);
        }
        i = i + 1;
    }
    proof {
        assert(forall|j: int| 0 <= j < n ==> config@[j] == config.known_servers@[j]@);
        assert(!has_server_named(config@, args.name@));
    }
    let server = Server {
        name: args.name,
        address: args.address,
        password: args.password,
        quirks: args.quirks,
    };
    config.known_servers.push(server);
    proof {
        assert(config@ =~= old(config)@.push(
            ServerView {
                name: args.name@,
                address: args.address@,
                password: args.password@,
                quirks: args.quirks@,
            },
        ));
    }
    Ok(())
}

/// Removes every record whose name is among `args.names`. If no record
/// matches, fails with `NoServersMatched` and leaves the registry exactly
/// as it was; otherwise keeps exactly the non-matching records, in their
/// stored order (a partial match is a success).
pub fn run_remove(args: RemoveArgs, config: &mut Configuration) -> (r: Result<(), Error>)
    ensures
        r is Ok <==> exists|i: int|
            0 <= i < old(config)@.len() && name_listed(args.names@, old(config)@[i].name),
        r matches Err(e) ==> e is NoServersMatched && *final(config) == *old(config),
        r is Ok ==> final(config)@ == kept_servers(old(config)@, args.names@),
{
    let mut kept: Vec<Server> = Vec::new();
    let mut found = false;
    let n = config.known_servers.len();
    let mut i: usize = 0;
    proof {
        lemma_kept_empty(args.names@);
        assert(servers_view(config.known_servers@.subrange(0, 0)) =~= Seq::<ServerView>::empty());
    }
    while i < n
        invariant
            n == config.known_servers@.len(),
            0 <= i <= n,
            found <==> exists|j: int|
                0 <= j < i && name_listed(args.names@, config.known_servers@[j]@.name),
            servers_view(kept@) == kept_servers(
                servers_view(config.known_servers@.subrange(0, i as int)),
                args.names@,
            ),
        decreases n - i,
    {
        let ghost pre = servers_view(config.known_servers@.subrange(0, i as int));
        let ghost cur = config.known_servers@[i as int]@;
        let s = &config.known_servers[i];
        if contains_name(&args.names, &s.name) {
            found = true;
        } else {
            kept.push(s.clone());
        }
        proof {
            assert(servers_view(config.known_servers@.subrange(0, i + 1int)) =~= pre.push(cur));
            lemma_kept_push(pre, args.names@, cur);
            if !name_listed(args.names@, cur.name) {
                assert(servers_view(kept@) =~= kept_servers(pre, args.names@).push(cur));
            }
        }
        i = i + 1;
    }
    proof {
        assert(config.known_servers@.subrange(0, n as int) =~= config.known_servers@);
        assert(old(config)@ == servers_view(config.known_servers@));
        let names = args.names@;
        if found {
            let j = choose|j: int|
                0 <= j < n && name_listed(names, config.known_servers@[j]@.name);
            assert(old(config)@[j] == config.known_servers@[j]@);
            assert(name_listed(names, old(config)@[j].name));
        }
        if exists|i: int| 0 <= i < old(config)@.len() && name_listed(names, old(config)@[i].name) {
            let i = choose|i: int|
                0 <= i < old(config)@.len() && name_listed(names, old(config)@[i].name);
            assert(old(config)@[i] == config.known_servers@[i]@);
            assert(name_listed(names, config.known_servers@[i]@.name));
        }
    }
    if !found {
        return Err(Error::NoServersMatched);
    }
    config.known_servers = kept;
    Ok(())
}

impl Configuration {
    /// The first record carrying `name`; absence is a normal outcome, not
    /// an error.
    pub fn find(&self, name: &String) -> (r: Option<&Server>)
        ensures
            match r {
                Some(s) => has_server_named(self@, name@) && Some(s@) == find_spec(self@, name@),
                None => !has_server_named(self@, name@),
            },
    {
        let n = self.known_servers.len();
        let mut i: usize = 0;
        while i < n
            invariant
                n == self.known_servers@.len(),
                0 <= i <= n,
                forall|j: int| 0 <= j < i ==> self.known_servers@[j]@.name != name@,
            decreases n - i,
        {
            if self.known_servers[i].name == *name {
                proof {
                    assert(forall|j: int| 0 <= j <= i ==> self@[j] == self.known_servers@[j]@);
                    lemma_find_spec_first(self@, name@, i as int);
                }
                return Some(&self.known_servers[i]);
            }
            i = i + 1;
        }
        proof {
            assert(forall|j: int| 0 <= j < n ==> self@[j] == self.known_servers@[j]@);
            lemma_find_spec_none(self@, name@);
        }
        None
    }

    /// The stored records, in order. Whether passwords are shown is the
    /// display layer's concern, not the registry's.
    pub fn list(&self) -> (r: &Vec<Server>)
        ensures
            servers_view(r@) == self@,
    {
        &self.known_servers
    }
}

} // verus!
