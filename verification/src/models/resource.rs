//! What a server uses of the machine.
use vstd::prelude::*;
use crate::json;
use crate::numbers;
use crate::text;

verus! {

/// What a server uses, as the `stats` event tells it. The share of the
/// processor is kept as the decimal text it is sent as.
#[derive(Debug, Clone, Default)]
pub struct ResourceUsage {
    pub memory_bytes: u64,
    pub memory_limit_bytes: u64,
    pub cpu_absolute: String,
    pub network: NetworkStats,
    /// seconds
    pub uptime: u64,
    /// "offline", "starting", "running" or "stopping"
    pub state: String,
    pub disk_bytes: u64,
}

#[derive(Debug, Clone, Copy, Default)]
pub struct NetworkStats {
    pub rx_bytes: u64,
    pub tx_bytes: u64,
}

/// What is received over all interfaces.
pub open spec fn received(v: Seq<(u64, u64)>) -> int
    decreases v.len(),
{
    if v.len() == 0 {
        0
    } else {
        received(v.drop_last()) + v.last().0
    }
}

/// What is sent over all interfaces.
pub open spec fn sent(v: Seq<(u64, u64)>) -> int
    decreases v.len(),
{
    if v.len() == 0 {
        0
    } else {
        sent(v.drop_last()) + v.last().1
    }
}

proof fn lemma_totals_grow(v: Seq<(u64, u64)>, i: int)
    requires
        0 <= i <= v.len(),
    ensures
        0 <= received(v.take(i)) <= received(v),
        0 <= sent(v.take(i)) <= sent(v),
    decreases v.len(),
{
    if i < v.len() {
        lemma_totals_grow(v.drop_last(), i);
        assert(v.drop_last().take(i) =~= v.take(i));
    } else {
        assert(v.take(i) =~= v);
        if v.len() > 0 {
            lemma_totals_grow(v.drop_last(), i - 1);
            assert(v.drop_last().take(i - 1) =~= v.drop_last());
        }
    }
}

impl NetworkStats {
    /// The totals over all interfaces, each given as received and sent bytes.
    /// There are none when a total cannot be counted.
    pub fn totals(interfaces: &[(u64, u64)]) -> (r: Option<NetworkStats>)
        ensures
            match r {
                Some(n) => n.rx_bytes == received(interfaces@) && n.tx_bytes == sent(interfaces@),
                None => received(interfaces@) > u64::MAX || sent(interfaces@) > u64::MAX,
            },
    {
        let mut rx: u64 = 0;
        let mut tx: u64 = 0;
        let mut i: usize = 0;
        while i < interfaces.len()
            invariant
                i <= interfaces.len(),
                rx == received(interfaces@.take(i as int)),
                tx == sent(interfaces@.take(i as int)),
            decreases interfaces.len() - i,
        {
            proof {
                assert(interfaces@.take(i + 1).drop_last() =~= interfaces@.take(i as int));
                lemma_totals_grow(interfaces@, i + 1);
            }
            match (rx.checked_add(interfaces[i].0), tx.checked_add(interfaces[i].1)) {
                (Some(a), Some(b)) => {
                    rx = a;
                    tx = b;
                },
                _ => {
                    return None;
                },
            }
            i = i + 1;
        }
        assert(interfaces@.take(i as int) =~= interfaces@);
        Some(NetworkStats { rx_bytes: rx, tx_bytes: tx })
    }
}

/// What a server uses of its memory: without the pages that are only cached.
pub fn memory_in_use(raw: u64, total_inactive_file: u64, inactive_file: u64) -> (r: u64)
    ensures
        r == (if 0 < total_inactive_file < raw {
            raw - total_inactive_file
        } else if inactive_file < raw {
            raw - inactive_file
        } else {
            raw as int
        }),
{
    if total_inactive_file > 0 && total_inactive_file < raw {
        raw - total_inactive_file
    } else if inactive_file < raw {
        raw - inactive_file
    } else {
        raw
    }
}

/// What the share of the processor is made of: what the server and the machine
/// used since the sample before, when both clocks went on.
pub fn cpu_deltas(total: u64, prev_total: u64, system: u64, prev_system: u64) -> (r: Option<
    (u64, u64),
>)
    ensures
        r == (if system > prev_system && total >= prev_total {
            Some(((total - prev_total) as u64, (system - prev_system) as u64))
        } else {
            None
        }),
{
    if system > prev_system && total >= prev_total {
        Some((total - prev_total, system - prev_system))
    } else {
        None
    }
}

impl ResourceUsage {
    /// The usage as one JSON object.
    pub open spec fn json(&self) -> Seq<char> {
        "{\"memory_bytes\":"@ + numbers::decimal(self.memory_bytes as nat)
            + ",\"memory_limit_bytes\":"@ + numbers::decimal(self.memory_limit_bytes as nat)
            + ",\"cpu_absolute\":"@ + self.cpu_absolute@ + ",\"network\":{\"rx_bytes\":"@
            + numbers::decimal(self.network.rx_bytes as nat) + ",\"tx_bytes\":"@
            + numbers::decimal(self.network.tx_bytes as nat) + "},\"uptime\":"@
            + numbers::decimal(self.uptime as nat) + ",\"state\":"@ + json::quoted(self.state@)
            + ",\"disk_bytes\":"@ + numbers::decimal(self.disk_bytes as nat) + "}"@
    }

    /// The same usage, field by field.
    pub open spec fn equals(&self, other: ResourceUsage) -> bool {
        &&& self.memory_bytes == other.memory_bytes
        &&& self.memory_limit_bytes == other.memory_limit_bytes
        &&& self.cpu_absolute@ == other.cpu_absolute@
        &&& self.network == other.network
        &&& self.uptime == other.uptime
        &&& self.state@ == other.state@
        &&& self.disk_bytes == other.disk_bytes
    }

    /// What a server uses that does not run: nothing but the room of its files.
    pub open spec fn is_idle(self, disk: u64) -> bool {
        &&& self.memory_bytes == 0
        &&& self.memory_limit_bytes == 0
        &&& self.cpu_absolute@ == "0.0"@
        &&& self.network == (NetworkStats { rx_bytes: 0, tx_bytes: 0 })
        &&& self.uptime == 0
        &&& self.state@ == "offline"@
        &&& self.disk_bytes == disk
    }

    /// What a server uses that does not run.
    pub fn offline() -> (r: Self)
        ensures
            r.is_idle(0),
    {
        ResourceUsage {
            memory_bytes: 0,
            memory_limit_bytes: 0,
            cpu_absolute: "0.0".to_owned(),
            network: NetworkStats { rx_bytes: 0, tx_bytes: 0 },
            uptime: 0,
            state: "offline".to_owned(),
            disk_bytes: 0,
        }
    }

    pub fn copy(&self) -> (r: Self)
        ensures
            r.equals(*self),
    {
        ResourceUsage {
            memory_bytes: self.memory_bytes,
            memory_limit_bytes: self.memory_limit_bytes,
            cpu_absolute: self.cpu_absolute.clone(),
            network: self.network,
            uptime: self.uptime,
            state: self.state.clone(),
            disk_bytes: self.disk_bytes,
        }
    }

    /// The usage as one JSON object.
    pub fn to_json(&self) -> (r: String)
        ensures
            r@ == self.json(),
    {
        let mut s = "{\"memory_bytes\":".to_owned();
        s.append(numbers::decimal_u64(self.memory_bytes).as_str());
        s.append(",\"memory_limit_bytes\":");
        s.append(numbers::decimal_u64(self.memory_limit_bytes).as_str());
        s.append(",\"cpu_absolute\":");
        s.append(self.cpu_absolute.as_str());
        s.append(",\"network\":{\"rx_bytes\":");
        s.append(numbers::decimal_u64(self.network.rx_bytes).as_str());
        s.append(",\"tx_bytes\":");
        s.append(numbers::decimal_u64(self.network.tx_bytes).as_str());
        s.append("},\"uptime\":");
        s.append(numbers::decimal_u64(self.uptime).as_str());
        s.append(",\"state\":");
        s.append(json::quote(self.state.as_str()).as_str());
        s.append(",\"disk_bytes\":");
        s.append(numbers::decimal_u64(self.disk_bytes).as_str());
        s.append("}");
        s
    }
}

/// What is received and sent is added up over all interfaces.
pub proof fn law_traffic_adds_up(a: Seq<(u64, u64)>, b: Seq<(u64, u64)>, r: u64, s: u64)
    ensures
        received(seq![(r, s)]) == r && sent(seq![(r, s)]) == s,
        received(a + b) == received(a) + received(b),
        sent(a + b) == sent(a) + sent(b),
    decreases b.len(),
{
    assert(seq![(r, s)].drop_last() =~= Seq::<(u64, u64)>::empty());
    assert(received(seq![(r, s)].drop_last()) == 0 && sent(seq![(r, s)].drop_last()) == 0);
    if b.len() == 0 {
        assert(a + b =~= a);
    } else {
        law_traffic_adds_up(a, b.drop_last(), r, s);
        assert((a + b).drop_last() =~= a + b.drop_last());
    }
}

/// The usage of a server, as clients get it.
pub proof fn law_usage_is_told(u: &ResourceUsage)
    ensures
        u.json() == "{\"memory_bytes\":"@ + numbers::decimal(u.memory_bytes as nat)
            + ",\"memory_limit_bytes\":"@ + numbers::decimal(u.memory_limit_bytes as nat)
            + ",\"cpu_absolute\":"@ + u.cpu_absolute@ + ",\"network\":{\"rx_bytes\":"@
            + numbers::decimal(u.network.rx_bytes as nat) + ",\"tx_bytes\":"@ + numbers::decimal(
            u.network.tx_bytes as nat,
        ) + "},\"uptime\":"@ + numbers::decimal(u.uptime as nat) + ",\"state\":"@ + json::quoted(
            u.state@,
        ) + ",\"disk_bytes\":"@ + numbers::decimal(u.disk_bytes as nat) + "}"@,
{
}

/// A server that does not run uses nothing but the room of its files.
pub proof fn law_idle_servers(u: ResourceUsage, disk: u64)
    requires
        u.is_idle(disk),
    ensures
        u.memory_bytes == 0 && u.memory_limit_bytes == 0 && u.uptime == 0 && u.network.rx_bytes == 0
            && u.network.tx_bytes == 0,
        u.state@ == "offline"@,
        u.disk_bytes == disk,
{
}

/// Usages are the same if all that is told of them is.
pub proof fn law_same_usages(a: &ResourceUsage, b: ResourceUsage)
    requires
        a.equals(b),
    ensures
        a.json() == b.json(),
        a.memory_bytes == b.memory_bytes && a.memory_limit_bytes == b.memory_limit_bytes
            && a.cpu_absolute@ == b.cpu_absolute@ && a.network == b.network && a.uptime == b.uptime
            && a.state@ == b.state@ && a.disk_bytes == b.disk_bytes,
{
}

} // verus!
