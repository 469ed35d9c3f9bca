//! The watch-list as an operator edits it: the addresses and ports to
//! listen on and the interface, with the answers that the edits give.

use vstd::prelude::*;
use vstd::string::{StringExecFns, StringSliceAdditionalSpecFns};
use crate::ipv4::{dotted_quad_text, format_ipv4, parse_ipv4, parse_ipv4_spec};
use crate::text::{decimal_text, push_decimal_text};

verus! {

/// Why an edit was refused.
#[derive(Clone, Copy, Debug, PartialEq, Eq, Structural)]
pub enum ConfigError {
    /// The text is no IPv4 address in dotted form.
    InvalidIp,
    /// Port 0 cannot be listened on.
    ZeroPort,
}

impl ConfigError {
    /// The error in words. For a text that is no address the words end
    /// with a colon, and the text belongs behind it.
    pub fn message(&self) -> (r: String)
        ensures
            r@ == match self {
                ConfigError::InvalidIp => "无效的 IP 地址格式: "@,
                ConfigError::ZeroPort => "端口号不能为 0"@,
            },
    {
        match self {
            ConfigError::InvalidIp => String::from_str("无效的 IP 地址格式: "),
            ConfigError::ZeroPort => String::from_str("端口号不能为 0"),
        }
    }
}

/// The words that refuse `ip` as an address.
pub fn invalid_ip_message(ip: &str) -> (r: String)
    ensures
        r@ == "无效的 IP 地址格式: "@ + ip@,
{
    let mut message = ConfigError::InvalidIp.message();
    message.append(ip);
    message
}

/// A request to listen on an address.
#[derive(Debug)]
pub struct AddListenerIpRequest {
    pub ip: String,
}

/// A request to listen on a port.
#[derive(Clone, Copy, Debug, PartialEq, Eq, Structural)]
pub struct AddListenerPortRequest {
    pub port: u16,
}

/// A request to stop listening on an address.
#[derive(Debug)]
pub struct RemoveListenerIpRequest {
    pub ip: String,
}

/// A request to stop listening on a port.
#[derive(Clone, Copy, Debug, PartialEq, Eq, Structural)]
pub struct RemoveListenerPortRequest {
    pub port: u16,
}

/// The watch-list as text and numbers.
#[derive(Debug)]
pub struct ListenerConfigResponse {
    pub listen_ips: Vec<String>,
    pub listen_ports: Vec<u16>,
    pub interface: String,
}

/// The answer to an edit.
#[derive(Debug)]
pub struct ListenerOperationResult {
    /// Whether the edit changed the list.
    pub success: bool,
    pub message: String,
    /// The address or port that the edit was about.
    pub affected_item: Option<String>,
}

/// Whether a port can be listened on: every port but 0.
pub fn validate_port(port: u16) -> (r: Result<(), ConfigError>)
    ensures
        r == if port == 0 {
            Err::<(), ConfigError>(ConfigError::ZeroPort)
        } else {
            Ok::<(), ConfigError>(())
        },
{
    if port == 0 {
        Err(ConfigError::ZeroPort)
    } else {
        Ok(())
    }
}

/// Whether `ip` is an IPv4 address in dotted form.
pub fn validate_ip_address(ip: &str) -> (r: Result<(), ConfigError>)
    ensures
        r is Ok <==> parse_ipv4_spec(ip.spec_bytes()) is Some,
        r matches Err(e) ==> e == ConfigError::InvalidIp,
{
    match parse_ipv4(ip.as_bytes()) {
        Some(_) => Ok(()),
        None => Err(ConfigError::InvalidIp),
    }
}

/// The place of `x` in a list without repeats, if it is there.
pub open spec fn place_of(s: Seq<u64>, x: u64) -> Option<int>
    decreases s.len(),
{
    if s.len() == 0 {
        None
    } else if s.last() == x {
        Some(s.len() - 1)
    } else {
        place_of(s.drop_last(), x)
    }
}

/// `place_of` finds `x` where it is in the list, and only there.
pub proof fn lemma_place_of(s: Seq<u64>, x: u64)
    ensures
        match place_of(s, x) {
            Some(i) => 0 <= i < s.len() && s[i] == x,
            None => !s.contains(x),
        },
    decreases s.len(),
{
    if s.len() > 0 && s.last() != x {
        lemma_place_of(s.drop_last(), x);
        if place_of(s, x) is None {
            assert forall|i: int| 0 <= i < s.len() implies s[i] != x by {
                if i < s.len() - 1 {
                    assert(s.drop_last()[i] == s[i]);
                }
            }
        }
    }
}

/// The list with `x` put at its end, unless it is in the list already.
pub open spec fn with_item(s: Seq<u64>, x: u64) -> Seq<u64> {
    if s.contains(x) {
        s
    } else {
        s.push(x)
    }
}

/// The list with `x` taken out, if it is in the list.
pub open spec fn without_item(s: Seq<u64>, x: u64) -> Seq<u64> {
    match place_of(s, x) {
        Some(i) => s.remove(i),
        None => s,
    }
}

fn find_item(items: &Vec<u64>, x: u64) -> (r: Option<usize>)
    ensures
        r is Some <==> items@.contains(x),
        match r {
            Some(i) => place_of(items@, x) == Some(i as int) && i < items@.len() && items@[i as int]
                == x,
            None => place_of(items@, x) is None,
        },
{
    let mut i: usize = items.len();
    proof {
        assert(items@.take(i as int) =~= items@);
    }
    while i > 0
        invariant
            i <= items@.len(),
            place_of(items@, x) == place_of(items@.take(i as int), x),
        decreases i,
    {
        proof {
            assert(items@.take(i as int).drop_last() =~= items@.take(i - 1));
            assert(items@.take(i as int).last() == items@[i - 1]);
        }
        if items[i - 1] == x {
            proof {
                lemma_place_of(items@, x);
            }
            return Some(i - 1);
        }
        i = i - 1;
    }
    proof {
        assert(items@.take(0).len() == 0);
        lemma_place_of(items@, x);
    }
    None
}

/// The addresses and ports to listen on, and the interface.
pub struct ListenerConfig {
    listen_ips: Vec<u64>,
    listen_ports: Vec<u64>,
    interface: String,
}

/// The words that answer a request to add the address `item`.
pub open spec fn add_ip_words(item: Seq<char>, added: bool) -> Seq<char> {
    if added {
        "成功添加监听 IP 地址: "@ + item
    } else {
        "IP 地址 "@ + item + " 已经在监听列表中"@
    }
}

/// The words that answer a request to remove the address `item`.
pub open spec fn remove_ip_words(item: Seq<char>, removed: bool) -> Seq<char> {
    if removed {
        "成功移除监听 IP 地址: "@ + item
    } else {
        "IP 地址 "@ + item + " 不在监听列表中"@
    }
}

/// The words that answer a request to add the port `item`.
pub open spec fn add_port_words(item: Seq<char>, added: bool) -> Seq<char> {
    if added {
        "成功添加监听端口: "@ + item
    } else {
        "端口 "@ + item + " 已经在监听列表中"@
    }
}

/// The words that answer a request to remove the port `item`.
pub open spec fn remove_port_words(item: Seq<char>, removed: bool) -> Seq<char> {
    if removed {
        "成功移除监听端口: "@ + item
    } else {
        "端口 "@ + item + " 不在监听列表中"@
    }
}

impl ListenerOperationResult {
    /// Whether the answer says that the list changed or not, in the words
    /// `words`, about the item `item`.
    pub open spec fn says(&self, changed: bool, words: Seq<char>, item: Seq<char>) -> bool {
        &&& self.success == changed
        &&& self.message@ == words
        &&& self.affected_item matches Some(i)
        &&& i@ == item
    }
}

/// The list that listens on `targets`, each once, in the order in which
/// they first occur.
pub open spec fn listed(targets: Seq<u32>) -> Seq<u64>
    decreases targets.len(),
{
    if targets.len() == 0 {
        Seq::empty()
    } else {
        with_item(listed(targets.drop_last()), targets.last() as u64)
    }
}

impl ListenerConfig {
    /// The addresses listened on, in the order in which they were added.
    pub closed spec fn ips(&self) -> Seq<u64> {
        self.listen_ips@
    }

    /// The ports listened on, in the order in which they were added.
    pub closed spec fn ports(&self) -> Seq<u64> {
        self.listen_ports@
    }

    /// The name of the interface.
    pub closed spec fn interface_name(&self) -> Seq<char> {
        self.interface@
    }

    /// No address and no port is listed twice, and all are in range.
    pub closed spec fn wf(&self) -> bool {
        &&& self.listen_ips@.no_duplicates()
        &&& self.listen_ports@.no_duplicates()
        &&& forall|i: int| 0 <= i < self.listen_ips@.len() ==> (#[trigger] self.listen_ips@[i]) <= u32::MAX
        &&& forall|i: int|
            0 <= i < self.listen_ports@.len() ==> (#[trigger] self.listen_ports@[i]) <= u16::MAX
    }

    /// A list with nothing to listen on.
    pub fn new(interface: String) -> (c: Self)
        ensures
            c.wf(),
            c.ips() == Seq::<u64>::empty(),
            c.ports() == Seq::<u64>::empty(),
            c.interface_name() == interface@,
    {
        ListenerConfig { listen_ips: Vec::new(), listen_ports: Vec::new(), interface }
    }

    /// A list that listens on `target_ips`, each once.
    pub fn from_target_ips(interface: String, target_ips: Vec<u32>) -> (c: Self)
        ensures
            c.wf(),
            c.ips() == listed(target_ips@),
            c.ports() == Seq::<u64>::empty(),
            c.interface_name() == interface@,
    {
        let mut config = ListenerConfig::new(interface);
        let mut i: usize = 0;
        assert(target_ips@.take(0) =~= Seq::<u32>::empty());
        while i < target_ips.len()
            invariant
                i <= target_ips@.len(),
                config.wf(),
                config.ips() == listed(target_ips@.take(i as int)),
                config.ports() == Seq::<u64>::empty(),
                config.interface_name() == interface@,
            decreases target_ips@.len() - i,
        {
            assert(target_ips@.take(i + 1).drop_last() =~= target_ips@.take(i as int));
            let _ = config.insert_ip(target_ips[i]);
            i = i + 1;
        }
        assert(target_ips@.take(i as int) =~= target_ips@);
        config
    }

    /// Puts an address on the list and says whether it was new.
    pub fn insert_ip(&mut self, ip: u32) -> (added: bool)
        requires
            old(self).wf(),
        ensures
            final(self).wf(),
            added == !old(self).ips().contains(ip as u64),
            final(self).ips() == with_item(old(self).ips(), ip as u64),
            final(self).ports() == old(self).ports(),
            final(self).interface_name() == old(self).interface_name(),
    {
        match find_item(&self.listen_ips, ip as u64) {
            Some(_) => false,
            None => {
                self.listen_ips.push(ip as u64);
                true
            },
        }
    }

    /// Puts the address that `ip_str` spells on the list. Text that spells
    /// no address is refused. An address that is listed already stays, and
    /// the answer says that nothing changed.
    pub fn add_listen_ip(&mut self, ip_str: &str) -> (r: Result<ListenerOperationResult, ConfigError>)
        requires
            old(self).wf(),
        ensures
            final(self).wf(),
            final(self).ports() == old(self).ports(),
            final(self).interface_name() == old(self).interface_name(),
            match parse_ipv4_spec(ip_str.spec_bytes()) {
                Some(ip) => {
                    &&& final(self).ips() == with_item(old(self).ips(), ip as u64)
                    &&& r matches Ok(result)
                    &&& result.says(
                        !old(self).ips().contains(ip as u64),
                        add_ip_words(ip_str@, !old(self).ips().contains(ip as u64)),
                        ip_str@,
                    )
                },
                None => final(self).ips() == old(self).ips() && r == Err::<
                    ListenerOperationResult,
                    ConfigError,
                >(ConfigError::InvalidIp),
            },
    {
        let ip = match parse_ipv4(ip_str.as_bytes()) {
            Some(ip) => ip,
            None => {
                return Err(ConfigError::InvalidIp);
            },
        };
        if self.insert_ip(ip) {
            let mut message = String::from_str("成功添加监听 IP 地址: ");
            message.append(ip_str);
            Ok(
                ListenerOperationResult {
                    success: true,
                    message,
                    affected_item: Some(String::from_str(ip_str)),
                },
            )
        } else {
            let mut message = String::from_str("IP 地址 ");
            message.append(ip_str);
            message.append(" 已经在监听列表中");
            Ok(
                ListenerOperationResult {
                    success: false,
                    message,
                    affected_item: Some(String::from_str(ip_str)),
                },
            )
        }
    }

    /// Takes the address that `ip_str` spells off the list. Text that
    /// spells no address is refused. For an address that is not listed the
    /// answer says that nothing changed.
    pub fn remove_listen_ip(&mut self, ip_str: &str) -> (r: Result<
        ListenerOperationResult,
        ConfigError,
    >)
        requires
            old(self).wf(),
        ensures
            final(self).wf(),
            final(self).ports() == old(self).ports(),
            final(self).interface_name() == old(self).interface_name(),
            match parse_ipv4_spec(ip_str.spec_bytes()) {
                Some(ip) => {
                    &&& final(self).ips() == without_item(old(self).ips(), ip as u64)
                    &&& r matches Ok(result)
                    &&& result.says(
                        old(self).ips().contains(ip as u64),
                        remove_ip_words(ip_str@, old(self).ips().contains(ip as u64)),
                        ip_str@,
                    )
                },
                None => final(self).ips() == old(self).ips() && r == Err::<
                    ListenerOperationResult,
                    ConfigError,
                >(ConfigError::InvalidIp),
            },
    {
        let ip = match parse_ipv4(ip_str.as_bytes()) {
            Some(ip) => ip,
            None => {
                return Err(ConfigError::InvalidIp);
            },
        };
        match find_item(&self.listen_ips, ip as u64) {
            Some(at) => {
                let ghost before = self.listen_ips@;
                let _ = self.listen_ips.remove(at);
                proof {
                    lemma_remove_keeps(before, at as int);
                }
                let mut message = String::from_str("成功移除监听 IP 地址: ");
                message.append(ip_str);
                Ok(
                    ListenerOperationResult {
                        success: true,
                        message,
                        affected_item: Some(String::from_str(ip_str)),
                    },
                )
            },
            None => {
                let mut message = String::from_str("IP 地址 ");
                message.append(ip_str);
                message.append(" 不在监听列表中");
                Ok(
                    ListenerOperationResult {
                        success: false,
                        message,
                        affected_item: Some(String::from_str(ip_str)),
                    },
                )
            },
        }
    }

    /// Puts a port on the list. Port 0 is refused. A port that is listed
    /// already stays, and the answer says that nothing changed.
    pub fn add_listen_port(&mut self, port: u16) -> (r: Result<ListenerOperationResult, ConfigError>)
        requires
            old(self).wf(),
        ensures
            final(self).wf(),
            final(self).ips() == old(self).ips(),
            final(self).interface_name() == old(self).interface_name(),
            if port == 0 {
                final(self).ports() == old(self).ports() && r == Err::<
                    ListenerOperationResult,
                    ConfigError,
                >(ConfigError::ZeroPort)
            } else {
                &&& final(self).ports() == with_item(old(self).ports(), port as u64)
                &&& r matches Ok(result)
                &&& result.says(
                    !old(self).ports().contains(port as u64),
                    add_port_words(
                        decimal_text(port as nat),
                        !old(self).ports().contains(port as u64),
                    ),
                    decimal_text(port as nat),
                )
            },
    {
        if port == 0 {
            return Err(ConfigError::ZeroPort);
        }
        let mut item = String::from_str("");
        proof {
            reveal_strlit("");
        }
        push_decimal_text(&mut item, port as u64);
        assert(item@ =~= decimal_text(port as nat));
        match find_item(&self.listen_ports, port as u64) {
            Some(_) => {
                let mut message = String::from_str("端口 ");
                message.append(item.as_str());
                message.append(" 已经在监听列表中");
                Ok(ListenerOperationResult { success: false, message, affected_item: Some(item) })
            },
            None => {
                self.listen_ports.push(port as u64);
                let mut message = String::from_str("成功添加监听端口: ");
                message.append(item.as_str());
                Ok(ListenerOperationResult { success: true, message, affected_item: Some(item) })
            },
        }
    }

    /// Takes a port off the list. For a port that is not listed the answer
    /// says that nothing changed.
    pub fn remove_listen_port(&mut self, port: u16) -> (r: Result<
        ListenerOperationResult,
        ConfigError,
    >)
        requires
            old(self).wf(),
        ensures
            final(self).wf(),
            final(self).ips() == old(self).ips(),
            final(self).interface_name() == old(self).interface_name(),
            final(self).ports() == without_item(old(self).ports(), port as u64),
            r matches Ok(result) && result.says(
                old(self).ports().contains(port as u64),
                remove_port_words(
                    decimal_text(port as nat),
                    old(self).ports().contains(port as u64),
                ),
                decimal_text(port as nat),
            ),
    {
        let mut item = String::from_str("");
        proof {
            reveal_strlit("");
        }
        push_decimal_text(&mut item, port as u64);
        assert(item@ =~= decimal_text(port as nat));
        match find_item(&self.listen_ports, port as u64) {
            Some(at) => {
                let ghost before = self.listen_ports@;
                let _ = self.listen_ports.remove(at);
                proof {
                    lemma_remove_keeps(before, at as int);
                }
                let mut message = String::from_str("成功移除监听端口: ");
                message.append(item.as_str());
                Ok(ListenerOperationResult { success: true, message, affected_item: Some(item) })
            },
            None => {
                let mut message = String::from_str("端口 ");
                message.append(item.as_str());
                message.append(" 不在监听列表中");
                Ok(ListenerOperationResult { success: false, message, affected_item: Some(item) })
            },
        }
    }

    /// The addresses listened on, as numbers.
    pub fn get_listen_ips_u32(&self) -> (r: Vec<u32>)
        requires
            self.wf(),
        ensures
            r@.len() == self.ips().len(),
            forall|i: int| 0 <= i < r@.len() ==> (#[trigger] r@[i]) as u64 == self.ips()[i],
    {
        let mut out: Vec<u32> = Vec::new();
        let mut i: usize = 0;
        while i < self.listen_ips.len()
            invariant
                i <= self.listen_ips@.len(),
                self.wf(),
                out@.len() == i,
                forall|j: int| 0 <= j < i ==> (#[trigger] out@[j]) as u64 == self.listen_ips@[j],
            decreases self.listen_ips@.len() - i,
        {
            assert(self.listen_ips@[i as int] <= u32::MAX);
            out.push(self.listen_ips[i] as u32);
            i = i + 1;
        }
        out
    }

    /// The ports listened on.
    pub fn get_listen_ports(&self) -> (r: Vec<u16>)
        requires
            self.wf(),
        ensures
            r@.len() == self.ports().len(),
            forall|i: int| 0 <= i < r@.len() ==> (#[trigger] r@[i]) as u64 == self.ports()[i],
    {
        let mut out: Vec<u16> = Vec::new();
        let mut i: usize = 0;
        while i < self.listen_ports.len()
            invariant
                i <= self.listen_ports@.len(),
                self.wf(),
                out@.len() == i,
                forall|j: int| 0 <= j < i ==> (#[trigger] out@[j]) as u64 == self.listen_ports@[j],
            decreases self.listen_ports@.len() - i,
        {
            assert(self.listen_ports@[i as int] <= u16::MAX);
            out.push(self.listen_ports[i] as u16);
            i = i + 1;
        }
        out
    }

    /// Whether `r` shows this list: the interface, the ports in order, and
    /// the addresses in order and in dotted form.
    pub open spec fn shown_as(&self, r: ListenerConfigResponse) -> bool {
        &&& r.interface@ == self.interface_name()
        &&& r.listen_ports@.len() == self.ports().len()
        &&& forall|i: int|
            0 <= i < r.listen_ports@.len() ==> (#[trigger] r.listen_ports@[i]) as u64
                == self.ports()[i]
        &&& r.listen_ips@.len() == self.ips().len()
        &&& forall|i: int|
            0 <= i < r.listen_ips@.len() ==> (#[trigger] r.listen_ips@[i])@ == dotted_quad_text(
                self.ips()[i] as u32,
            )
    }

    /// The list as text and numbers: the addresses in dotted form.
    pub fn get_config(&self) -> (r: ListenerConfigResponse)
        requires
            self.wf(),
        ensures
            self.shown_as(r),
    {
        let ips = self.get_listen_ips_u32();
        let mut listen_ips: Vec<String> = Vec::new();
        let mut i: usize = 0;
        while i < ips.len()
            invariant
                i <= ips@.len(),
                ips@.len() == self.ips().len(),
                forall|j: int| 0 <= j < ips@.len() ==> (#[trigger] ips@[j]) as u64 == self.ips()[j],
                listen_ips@.len() == i,
                forall|j: int|
                    0 <= j < i ==> (#[trigger] listen_ips@[j])@ == dotted_quad_text(
                        self.ips()[j] as u32,
                    ),
            decreases ips@.len() - i,
        {
            assert(ips@[i as int] as u64 == self.ips()[i as int]);
            listen_ips.push(self.u32_to_ip_string(ips[i]));
            i = i + 1;
        }
        ListenerConfigResponse {
            listen_ips,
            listen_ports: self.get_listen_ports(),
            interface: self.interface.clone(),
        }
    }

    /// Names another interface.
    pub fn set_interface(&mut self, interface: String) -> (r: Result<(), ConfigError>)
        requires
            old(self).wf(),
        ensures
            final(self).wf(),
            r is Ok,
            final(self).interface_name() == interface@,
            final(self).ips() == old(self).ips(),
            final(self).ports() == old(self).ports(),
    {
        self.interface = interface;
        Ok(())
    }

    /// The name of the interface.
    pub fn get_interface(&self) -> (r: String)
        ensures
            r@ == self.interface_name(),
    {
        self.interface.clone()
    }

    /// The address that `ip_str` spells, or `InvalidIp`.
    pub fn parse_ip(&self, ip_str: &str) -> (r: Result<u32, ConfigError>)
        ensures
            r == match parse_ipv4_spec(ip_str.spec_bytes()) {
                Some(ip) => Ok::<u32, ConfigError>(ip),
                None => Err::<u32, ConfigError>(ConfigError::InvalidIp),
            },
    {
        match parse_ipv4(ip_str.as_bytes()) {
            Some(ip) => Ok(ip),
            None => Err(ConfigError::InvalidIp),
        }
    }

    /// An address in dotted form.
    pub fn u32_to_ip_string(&self, ip: u32) -> (r: String)
        ensures
            r@ == dotted_quad_text(ip),
    {
        format_ipv4(ip)
    }
}

/// Taking one item out of a list without repeats leaves a list without
/// repeats, of items that were in the list.
pub proof fn lemma_remove_keeps(s: Seq<u64>, at: int)
    requires
        0 <= at < s.len(),
        s.no_duplicates(),
    ensures
        s.remove(at).no_duplicates(),
        forall|i: int| 0 <= i < s.remove(at).len() ==> s.contains(#[trigger] s.remove(at)[i]),
        forall|i: int|
            0 <= i < s.remove(at).len() ==> (#[trigger] s.remove(at)[i]) == s[if i < at {
                i
            } else {
                i + 1
            }],
{
    let r = s.remove(at);
    assert forall|i: int, j: int| 0 <= i < r.len() && 0 <= j < r.len() && i != j implies r[i]
        != r[j] by {
        let oi = if i < at {
            i
        } else {
            i + 1
        };
        let oj = if j < at {
            j
        } else {
            j + 1
        };
        assert(r[i] == s[oi] && r[j] == s[oj]);
    }
}

} // verus!
