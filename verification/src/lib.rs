//! A client library for maintaining a registry of remote-console server
//! endpoints and driving interactive administrative sessions against them.
//!
//! The library holds the verified core: address validation, the server
//! registry with its uniqueness and removal rules, quirk resolution onto
//! connection options, and the interactive session state machine. The
//! surrounding binary supplies the wire protocol, terminal I/O and the
//! backing file.
use vstd::prelude::*;

pub mod cli;
pub mod configfile;
pub mod error;
pub mod registry;
pub mod session;
pub mod validate;

verus! {

/// A named deviation from baseline protocol behaviour that some server
/// families require. Each quirk toggles exactly one boolean connection
/// option.
#[derive(Clone, Copy, PartialEq, Eq, Structural, Debug)]
pub enum Quirk {
    MinecraftQuirk,
    FactorioQuirk,
}

/// The spelling of a quirk as a lowercase hyphenated token.
pub open spec fn quirk_token(q: Quirk) -> Seq<char> {
    match q {
        Quirk::MinecraftQuirk => "minecraft-quirk"@,
        Quirk::FactorioQuirk => "factorio-quirk"@,
    }
}

impl Quirk {
    /// The lowercase hyphenated token this quirk is displayed as.
    pub fn token(&self) -> (r: &'static str)
        ensures
            r@ == quirk_token(*self),
    {
        match self {
            Quirk::MinecraftQuirk => "minecraft-quirk",
            Quirk::FactorioQuirk => "factorio-quirk",
        }
    }
}

/// The boolean protocol-variant flags handed to the external connector.
/// Every flag defaults to false; quirks only ever switch flags on.
#[derive(Clone, Copy, PartialEq, Eq, Structural, Debug)]
pub struct ConnectionOptions {
    pub minecraft_quirks: bool,
    pub factorio_quirks: bool,
}

/// The flag of `o` that quirk `q` governs.
pub open spec fn quirk_flag(o: ConnectionOptions, q: Quirk) -> bool {
    match q {
        Quirk::MinecraftQuirk => o.minecraft_quirks,
        Quirk::FactorioQuirk => o.factorio_quirks,
    }
}

/// `o` with the flag governed by `q` switched on.
pub open spec fn with_quirk(o: ConnectionOptions, q: Quirk) -> ConnectionOptions {
    match q {
        Quirk::MinecraftQuirk => ConnectionOptions { minecraft_quirks: true, ..o },
        Quirk::FactorioQuirk => ConnectionOptions { factorio_quirks: true, ..o },
    }
}

/// `o` with the flags of all quirks in `qs` switched on, applied in order.
pub open spec fn with_quirks(o: ConnectionOptions, qs: Seq<Quirk>) -> ConnectionOptions
    decreases qs.len(),
{
    if qs.len() == 0 {
        o
    } else {
        with_quirk(with_quirks(o, qs.drop_last()), qs.last())
    }
}

impl ConnectionOptions {
    /// The connector's defaults: no quirk enabled.
    pub open spec fn spec_default() -> ConnectionOptions {
        ConnectionOptions { minecraft_quirks: false, factorio_quirks: false }
    }

    pub fn new() -> (r: ConnectionOptions)
        ensures
            r == ConnectionOptions::spec_default(),
    {
        ConnectionOptions { minecraft_quirks: false, factorio_quirks: false }
    }
}

/// Law: quirks are independent. Enabling one quirk never alters the
/// connection-option flag governed by a different quirk.
pub proof fn lemma_quirk_independence(o: ConnectionOptions, a: Quirk, b: Quirk)
    requires
        a != b,
    ensures
        quirk_flag(with_quirk(o, a), b) == quirk_flag(o, b),
{
}

/// Law: applying a quirk twice is a no-op beyond the first application.
pub proof fn lemma_quirk_idempotent(o: ConnectionOptions, q: Quirk)
    ensures
        with_quirk(with_quirk(o, q), q) == with_quirk(o, q),
{
}

/// Applying a sequence of quirks switches on exactly the flags of the quirks
/// present and leaves every other flag as it was.
pub proof fn lemma_with_quirks_flags(o: ConnectionOptions, qs: Seq<Quirk>, q: Quirk)
    ensures
        quirk_flag(with_quirks(o, qs), q) == (quirk_flag(o, q) || qs.contains(q)),
    decreases qs.len(),
{
    if qs.len() > 0 {
        lemma_with_quirks_flags(o, qs.drop_last(), q);
        if qs.contains(q) {
            let i = choose|i: int| 0 <= i < qs.len() && qs[i] == q;
            if i < qs.len() - 1 {
                assert(qs.drop_last()[i] == q);
                assert(qs.drop_last().contains(q));
            }
        } else {
            assert(qs.last() != q);
        }
        if qs.drop_last().contains(q) {
            let i = choose|i: int| 0 <= i < qs.drop_last().len() && qs.drop_last()[i] == q;
            assert(qs[i] == q);
        }
    }
}

/// A named endpoint record of the registry: a unique name, a validated
/// address string, the stored credential, and the quirks to apply when
/// connecting.
#[derive(Debug)]
pub struct Server {
    pub name: String,
    pub address: String,
    pub password: String,
    pub quirks: Vec<Quirk>,
}

/// The mathematical content of a server record.
pub ghost struct ServerView {
    pub name: Seq<char>,
    pub address: Seq<char>,
    pub password: Seq<char>,
    pub quirks: Seq<Quirk>,
}

impl View for Server {
    type V = ServerView;

    open spec fn view(&self) -> ServerView {
        ServerView {
            name: self.name@,
            address: self.address@,
            password: self.password@,
            quirks: self.quirks@,
        }
    }
}

/// The records of a registry, by their mathematical content, in stored
/// order.
pub open spec fn servers_view(servers: Seq<Server>) -> Seq<ServerView> {
    servers.map_values(|s: Server| s@)
}

fn clone_quirks(v: &Vec<Quirk>) -> (r: Vec<Quirk>)
    ensures
        r@ == v@,
{
    let mut out: Vec<Quirk> = Vec::new();
    let mut i: usize = 0;
    while i < v.len()
        invariant
            0 <= i <= v.len(),
            out@ == v@.subrange(0, i as int),
        decreases v.len() - i,
    {
        out.push(v[i]);
        proof {
            assert(out@ =~= v@.subrange(0, i + 1int));
        }
        i = i + 1;
    }
    proof {
        assert(out@ =~= v@);
    }
    out
}

impl Clone for Server {
    /// A clone carries the same name, address, password and quirks.
    fn clone(&self) -> (r: Server)
        ensures
            r@ == self@,
    {
        Server {
            name: self.name.clone(),
            address: self.address.clone(),
            password: self.password.clone(),
            quirks: clone_quirks(&self.quirks),
        }
    }
}

impl Server {
    /// Switches on the connection-option flag of every quirk recorded for
    /// this server; all other flags keep the value they came in with.
    pub fn enable_quirks(&self, options: ConnectionOptions) -> (r: ConnectionOptions)
        ensures
            r == with_quirks(options, self.quirks@),
            r.minecraft_quirks == (options.minecraft_quirks || self.quirks@.contains(
                Quirk::MinecraftQuirk,
            )),
            r.factorio_quirks == (options.factorio_quirks || self.quirks@.contains(
                Quirk::FactorioQuirk,
            )),
    {
        let mut out = options;
        let mut i: usize = 0;
        while i < self.quirks.len()
            invariant
                0 <= i <= self.quirks.len(),
                out == with_quirks(options, self.quirks@.subrange(0, i as int)),
            decreases self.quirks.len() - i,
        {
            let q = self.quirks[i];
            out = match q {
                Quirk::MinecraftQuirk => ConnectionOptions { minecraft_quirks: true, ..out },
                Quirk::FactorioQuirk => ConnectionOptions { factorio_quirks: true, ..out },
            };
            proof {
                let pre = self.quirks@.subrange(0, i as int);
                let post = self.quirks@.subrange(0, i + 1int);
                assert(post.drop_last() =~= pre);
                assert(post.last() == self.quirks@[i as int]);
            }
            i = i + 1;
        }
        proof {
            assert(self.quirks@.subrange(0, self.quirks@.len() as int) =~= self.quirks@);
            lemma_with_quirks_flags(options, self.quirks@, Quirk::MinecraftQuirk);
            lemma_with_quirks_flags(options, self.quirks@, Quirk::FactorioQuirk);
        }
        out
    }
}

} // verus!
