//! The Bitcoin networks and what is derived from them: the port, address and cookie of a
//! local node, and the file that holds the wallets.
use bdk_wallet::bitcoin::Network;
use vstd::prelude::*;
use vstd::string::*;

verus! {

/// `bitcoin::Network`, with its variants.
#[verifier::external_type_specification]
pub struct ExNetwork(Network);

/// A network, as it is named on the command line.
#[derive(Debug, Clone, Copy, PartialEq, Eq, Structural)]
pub enum Chain {
    Main,
    Test,
    Testnet4,
    Signet,
    Regtest,
}

/// The network that `chain` names.
pub open spec fn network_of(chain: Chain) -> Network {
    match chain {
        Chain::Main => Network::Bitcoin,
        Chain::Test => Network::Testnet,
        Chain::Testnet4 => Network::Testnet4,
        Chain::Signet => Network::Signet,
        Chain::Regtest => Network::Regtest,
    }
}

impl vstd::std_specs::convert::FromSpecImpl<Chain> for Network {
    open spec fn obeys_from_spec() -> bool {
        true
    }

    open spec fn from_spec(chain: Chain) -> Network {
        network_of(chain)
    }
}

impl From<Chain> for Network {
    fn from(chain: Chain) -> (r: Network) {
        match chain {
            Chain::Main => Network::Bitcoin,
            Chain::Test => Network::Testnet,
            Chain::Testnet4 => Network::Testnet4,
            Chain::Signet => Network::Signet,
            Chain::Regtest => Network::Regtest,
        }
    }
}

/// The port on which a node of `network` answers calls.
pub open spec fn rpc_port(network: Network) -> u16 {
    match network {
        Network::Bitcoin => 8332,
        Network::Testnet => 18332,
        Network::Testnet4 => 48332,
        Network::Signet => 38332,
        Network::Regtest => 18443,
    }
}

/// The name of `network`.
pub open spec fn network_name(network: Network) -> Seq<char> {
    match network {
        Network::Bitcoin => "bitcoin"@,
        Network::Testnet => "testnet"@,
        Network::Testnet4 => "testnet4"@,
        Network::Signet => "signet"@,
        Network::Regtest => "regtest"@,
    }
}

/// The name of the file that holds the wallets of `network`.
pub open spec fn db_file(network: Network) -> Seq<char> {
    "ddust-"@ + network_name(network) + ".redb"@
}

/// The digit `d`.
pub open spec fn digit(d: nat) -> char {
    ('0' as nat + d) as char
}

/// `n` in decimal.
pub open spec fn decimal(n: nat) -> Seq<char>
    decreases n,
{
    if n < 10 {
        seq![digit(n)]
    } else {
        decimal(n / 10).push(digit(n % 10))
    }
}

/// Where the cookie of a node of `network` stands below its data directory, as the
/// components of the path. The main network has no directory of its own.
pub open spec fn cookie_path(network: Network) -> Seq<Seq<char>> {
    match network {
        Network::Bitcoin => seq![".cookie"@],
        _ => seq![network_name(network), ".cookie"@],
    }
}

/// The contents of each string.
pub open spec fn texts(strings: Seq<String>) -> Seq<Seq<char>> {
    Seq::new(strings.len(), |i: int| strings[i]@)
}

/// The default port of a node of `network`.
pub fn default_rpc_port(network: &Network) -> (r: u16)
    ensures
        r == rpc_port(*network),
{
    match network {
        Network::Bitcoin => 8332,
        Network::Testnet => 18332,
        Network::Testnet4 => 48332,
        Network::Signet => 38332,
        Network::Regtest => 18443,
    }
}

/// The text of one digit.
fn digit_text(d: u16) -> (r: &'static str)
    requires
        d < 10,
    ensures
        r@ == seq![digit(d as nat)],
{
    proof {
        reveal_strlit("0");
        reveal_strlit("1");
        reveal_strlit("2");
        reveal_strlit("3");
        reveal_strlit("4");
        reveal_strlit("5");
        reveal_strlit("6");
        reveal_strlit("7");
        reveal_strlit("8");
        reveal_strlit("9");
    }
    match d {
        0 => "0",
        1 => "1",
        2 => "2",
        3 => "3",
        4 => "4",
        5 => "5",
        6 => "6",
        7 => "7",
        8 => "8",
        _ => "9",
    }
}

/// `n` in decimal.
pub fn decimal_text(n: u16) -> (r: String)
    ensures
        r@ == decimal(n as nat),
    decreases n,
{
    let mut text = if n < 10 {
        String::new()
    } else {
        decimal_text(n / 10)
    };
    text.append(digit_text(n % 10));
    assert(text@ =~= decimal(n as nat));
    text
}

/// The address at which a local node of `network` answers calls by default.
pub fn default_url(network: &Network) -> (r: String)
    ensures
        r@ == "http://127.0.0.1:"@ + decimal(rpc_port(*network) as nat),
{
    let port = default_rpc_port(network);
    let mut url = "http://127.0.0.1:".to_owned();
    url.append(decimal_text(port).as_str());
    url
}

/// The name of `network`.
fn name_of(network: &Network) -> (r: &'static str)
    ensures
        r@ == network_name(*network),
{
    match network {
        Network::Bitcoin => "bitcoin",
        Network::Testnet => "testnet",
        Network::Testnet4 => "testnet4",
        Network::Signet => "signet",
        Network::Regtest => "regtest",
    }
}

/// Where the cookie that authenticates with a local node of `network` stands below the data
/// directory, as the components of the path.
pub fn default_auth(network: &Network) -> (r: Vec<String>)
    ensures
        texts(r@) == cookie_path(*network),
{
    let mut path: Vec<String> = Vec::new();
    match network {
        Network::Bitcoin => {},
        _ => {
            path.push(name_of(network).to_owned());
        },
    }
    path.push(".cookie".to_owned());
    assert(texts(path@) =~= cookie_path(*network));
    path
}

/// The name of the file that holds the wallets of `network`.
pub fn db_file_name(network: &Network) -> (r: String)
    ensures
        r@ == db_file(*network),
{
    let mut name = "ddust-".to_owned();
    name.append(name_of(network));
    name.append(".redb");
    name
}

/// Different networks have different ports and different files.
pub proof fn lemma_networks_apart(a: Network, b: Network)
    requires
        a != b,
    ensures
        rpc_port(a) != rpc_port(b),
        network_name(a) != network_name(b),
        db_file(a) != db_file(b),
{
    reveal_strlit("bitcoin");
    reveal_strlit("testnet");
    reveal_strlit("testnet4");
    reveal_strlit("signet");
    reveal_strlit("regtest");
    let (x, y) = (network_name(a), network_name(b));
    assert(x.len() != y.len() || x[0] != y[0]);
    let prefix = "ddust-"@;
    let suffix = ".redb"@;
    assert(db_file(a).len() == prefix.len() + x.len() + suffix.len());
    assert(db_file(b).len() == prefix.len() + y.len() + suffix.len());
    if x.len() == y.len() {
        assert(db_file(a)[prefix.len() as int] == x[0]);
        assert(db_file(b)[prefix.len() as int] == y[0]);
    }
}

/// The decimal text of a number is that number, digit by digit, and starts with 0 only for 0.
pub proof fn lemma_decimal_reads_back(n: nat)
    ensures
        decimal(n).fold_left(0int, |value: int, c: char| 10 * value + (c as int - 48)) == n,
        decimal(n).len() > 0,
        forall|i: int| 0 <= i < decimal(n).len() ==> '0' <= #[trigger] decimal(n)[i] <= '9',
        decimal(n)[0] == '0' <==> n == 0,
    decreases n,
{
    let text = decimal(n);
    let read = |value: int, c: char| 10 * value + (c as int - 48);
    if n < 10 {
        assert(text.drop_last() =~= Seq::<char>::empty());
        assert(text.last() == digit(n));
        assert(text.drop_last().fold_left(0int, read) == 0);
        assert(text.fold_left(0int, read) == read(0, digit(n)));
    } else {
        lemma_decimal_reads_back(n / 10);
        assert(text.drop_last() =~= decimal(n / 10));
        assert(text.last() == digit(n % 10));
        assert(text.fold_left(0int, read) == read(decimal(n / 10).fold_left(0int, read), digit(
            n % 10,
        )));
        assert(text[0] == decimal(n / 10)[0]);
        assert forall|i: int| 0 <= i < text.len() implies '0' <= #[trigger] text[i] <= '9' by {
            if i < text.len() - 1 {
                assert(text[i] == decimal(n / 10)[i]);
            }
        }
    }
}

/// The five networks, with the port, the name and the directory of each.
pub proof fn lemma_networks(network: Network)
    ensures
        network_of(Chain::Main) == Network::Bitcoin && network_of(Chain::Test)
            == Network::Testnet && network_of(Chain::Testnet4) == Network::Testnet4 && network_of(
            Chain::Signet,
        ) == Network::Signet && network_of(Chain::Regtest) == Network::Regtest,
        rpc_port(Network::Bitcoin) == 8332 && rpc_port(Network::Testnet) == 18332 && rpc_port(
            Network::Testnet4,
        ) == 48332 && rpc_port(Network::Signet) == 38332 && rpc_port(Network::Regtest) == 18443,
        network_name(Network::Bitcoin) == "bitcoin"@ && network_name(Network::Testnet)
            == "testnet"@ && network_name(Network::Testnet4) == "testnet4"@ && network_name(
            Network::Signet,
        ) == "signet"@ && network_name(Network::Regtest) == "regtest"@,
        network == Network::Bitcoin ==> cookie_path(network) == seq![".cookie"@],
        network != Network::Bitcoin ==> cookie_path(network) == seq![
            network_name(network),
            ".cookie"@,
        ],
        db_file(network) == "ddust-"@ + network_name(network) + ".redb"@,
{
}

/// The contents of strings are those of each, at its place.
pub proof fn lemma_texts(strings: Seq<String>)
    ensures
        texts(strings).len() == strings.len(),
        forall|i: int| 0 <= i < strings.len() ==> #[trigger] texts(strings)[i] == strings[i]@,
{
}

} // verus!
