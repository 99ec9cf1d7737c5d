//! The resource limits of a container.
use vstd::prelude::*;
use crate::config::{DockerConfig, Multiplier};
use crate::models::configuration::ServerBuild;

verus! {

/// The limits that a container is created with. An absent one is left to the
/// engine.
#[derive(Debug, Clone, Default)]
pub struct ContainerResources {
    pub memory: Option<i64>,
    pub memory_reservation: Option<i64>,
    pub memory_swap: Option<i64>,
    pub oom_kill_disable: Option<bool>,
    pub pids_limit: Option<i64>,
    pub blkio_weight: Option<u16>,
    pub cpu_quota: Option<i64>,
    pub cpu_period: Option<i64>,
    pub cpu_shares: Option<i64>,
    pub cpuset_cpus: Option<String>,
}

/// Bytes in a megabyte.
pub const MIB: i64 = 1048576;

pub open spec fn max(a: int, b: int) -> int {
    if a >= b {
        a
    } else {
        b
    }
}

pub open spec fn clamp(x: int, low: int, high: int) -> int {
    if x < low {
        low
    } else if x > high {
        high
    } else {
        x
    }
}

/// The factor configured for a limit is that of the smallest memory that covers
/// it, the first one listed where there are several.
pub open spec fn covers(v: Seq<Multiplier>, limit: i64, i: int) -> bool {
    &&& 0 <= i < v.len()
    &&& v[i].memory >= limit
    &&& forall|j: int|
        0 <= j < v.len() && (#[trigger] v[j]).memory >= limit ==> v[i].memory <= v[j].memory && (v[j].memory
            == v[i].memory ==> i <= j)
}

impl ServerBuild {
    /// The memory limit, in MB, that counts: an installer gets at least its own.
    pub open spec fn memory_for(&self, docker: &DockerConfig, installer: bool) -> int {
        if installer {
            max(self.memory_limit as int, docker.installer_limits.memory as int)
        } else {
            self.memory_limit as int
        }
    }

    /// The CPU limit, in percent, that counts: an installer gets at least its
    /// own, and none at all when its own is unlimited.
    pub open spec fn cpu_for(&self, docker: &DockerConfig, installer: bool) -> int {
        if !installer {
            self.cpu_limit as int
        } else if docker.installer_limits.cpu == 0 {
            0
        } else {
            max(self.cpu_limit as int, docker.installer_limits.cpu as int)
        }
    }

    /// The scheduling period.
    pub open spec fn period(docker: &DockerConfig) -> int {
        clamp(docker.cpu_period as int, 1000, 1_000_000)
    }

    /// The limits can be counted in bytes and microseconds.
    pub open spec fn fits(&self, docker: &DockerConfig, installer: bool, bounded: i64) -> bool {
        &&& bounded > 0 ==> i64::MIN <= self.memory_for(docker, installer) * MIB <= i64::MAX
        &&& self.swap < 0 || self.swap * MIB + bounded <= i64::MAX
        &&& self.cpu_for(docker, installer) * Self::period(docker) <= i64::MAX
    }

    /// The memory overhead factor, as decimal text: by default 1.15 up to 2048
    /// MB, 1.10 up to 4096 MB and 1.05 above; where the configuration overrides
    /// this, the configured one for the smallest memory that covers the limit,
    /// else the configured default.
    pub fn memory_overhead_multiplier(&self, docker: &DockerConfig) -> (r: String)
        ensures
            !docker.overhead.override_multiplier ==> r@ == (if self.memory_limit <= 2048 {
                "1.15"@
            } else if self.memory_limit <= 4096 {
                "1.10"@
            } else {
                "1.05"@
            }),
            docker.overhead.override_multiplier ==> ({
                let v = docker.overhead.multipliers@;
                ||| exists|i: int| #[trigger] covers(v, self.memory_limit, i) && r@ == v[i].overhead@
                ||| (forall|j: int| 0 <= j < v.len() ==> (#[trigger] v[j]).memory < self.memory_limit) && r@
                    == docker.overhead.default_multiplier@
            }),
    {
        let overhead = &docker.overhead;
        if !overhead.override_multiplier {
            if self.memory_limit <= 2048 {
                return "1.15".to_owned();
            } else if self.memory_limit <= 4096 {
                return "1.10".to_owned();
            }
            return "1.05".to_owned();
        }
        let v = &overhead.multipliers;
        let mut best: Option<usize> = None;
        let mut i: usize = 0;
        while i < v.len()
            invariant
                i <= v.len(),
                match best {
                    Some(b) => b < i && v@[b as int].memory >= self.memory_limit && forall|j: int|
                        0 <= j < i && (#[trigger] v@[j]).memory >= self.memory_limit
                            ==> v@[b as int].memory <= v@[j].memory && (v@[j].memory
                            == v@[b as int].memory ==> b <= j),
                    None => forall|j: int|
                        0 <= j < i ==> (#[trigger] v@[j]).memory < self.memory_limit,
                },
            decreases v.len() - i,
        {
            if v[i].memory >= self.memory_limit {
                match best {
                    Some(b) => {
                        if v[i].memory < v[b].memory {
                            best = Some(i);
                        }
                    },
                    None => {
                        best = Some(i);
                    },
                }
            }
            i = i + 1;
        }
        match best {
            Some(b) => {
                assert(covers(v@, self.memory_limit, b as int));
                v[b].overhead.clone()
            },
            None => overhead.default_multiplier.clone(),
        }
    }

    /// The build whose memory limit is the one that counts.
    pub fn limit_for(&self, docker: &DockerConfig, installer: bool) -> (r: ServerBuild)
        ensures
            r.memory_limit == self.memory_for(docker, installer),
            r.cpu_limit == self.cpu_for(docker, installer),
            r.swap == self.swap,
            r.io_weight == self.io_weight,
            r.disk_space == self.disk_space,
            r.oom_disabled == self.oom_disabled,
            r.threads@ == self.threads@,
    {
        let mut memory_limit: i64 = self.memory_limit;
        let mut cpu_limit: i64 = self.cpu_limit;
        if installer {
            if docker.installer_limits.memory > memory_limit {
                memory_limit = docker.installer_limits.memory;
            }
            if docker.installer_limits.cpu == 0 {
                cpu_limit = 0;
            } else if docker.installer_limits.cpu > cpu_limit {
                cpu_limit = docker.installer_limits.cpu;
            }
        }
        ServerBuild {
            memory_limit,
            swap: self.swap,
            io_weight: self.io_weight,
            cpu_limit,
            threads: self.threads.clone(),
            disk_space: self.disk_space,
            oom_disabled: self.oom_disabled,
        }
    }

    /// Whether the limits can be counted in bytes and microseconds.
    pub fn limits_fit(&self, docker: &DockerConfig, installer: bool, bounded: i64) -> (r: bool)
        ensures
            r == self.fits(docker, installer, bounded),
    {
        let limit = self.limit_for(docker, installer);
        let memory: i128 = limit.memory_limit as i128 * 1048576;
        let swap: i128 = limit.swap as i128 * 1048576 + bounded as i128;
        let period: i128 = period_of(docker) as i128;
        assert(-1_000_000 * 0x8000_0000_0000_0000 <= limit.cpu_limit * period <= 1_000_000
            * 0x8000_0000_0000_0000) by (nonlinear_arith)
            requires
                -0x8000_0000_0000_0000 <= limit.cpu_limit <= 0x8000_0000_0000_0000,
                0 <= period <= 1_000_000,
        ;
        let cpu: i128 = limit.cpu_limit as i128 * period;
        (bounded <= 0 || (i64::MIN as i128 <= memory && memory <= i64::MAX as i128)) && (limit.swap < 0 || swap
            <= i64::MAX as i128) && cpu <= i64::MAX as i128
    }

    /// The limits a container is created with. `bounded` is the memory limit
    /// that counts, in bytes and with its overhead, zero when there is none;
    /// `blkio_supported` says whether the system honours an I/O weight.
    pub fn as_container_resources(
        &self,
        docker: &DockerConfig,
        installer: bool,
        bounded: i64,
        blkio_supported: bool,
    ) -> (r: ContainerResources)
        requires
            bounded >= 0,
            self.fits(docker, installer, bounded),
        ensures
            r.memory == (if bounded > 0 {
                Some(bounded)
            } else {
                None
            }),
            r.memory_reservation == (if bounded > 0 {
                Some((self.memory_for(docker, installer) * MIB) as i64)
            } else {
                None
            }),
            r.memory_swap == Some(
                if self.swap < 0 {
                    -1i64
                } else {
                    (self.swap * MIB + bounded) as i64
                },
            ),
            r.oom_kill_disable == Some(self.oom_disabled),
            r.pids_limit == (if installer {
                None
            } else {
                Some(docker.container_pid_limit)
            }),
            r.blkio_weight == (if blkio_supported {
                Some(clamp(self.io_weight as int, 10, 1000) as u16)
            } else {
                None
            }),
            self.cpu_for(docker, installer) > 0 ==> r.cpu_quota == Some(
                (self.cpu_for(docker, installer) * Self::period(docker) / 100) as i64,
            ) && r.cpu_period == Some(Self::period(docker) as i64),
            self.cpu_for(docker, installer) <= 0 ==> r.cpu_quota is None && r.cpu_period is None,
            r.cpu_shares == (if docker.cpu_shares > 0 {
                Some(docker.cpu_shares as i64)
            } else {
                None
            }),
            match r.cpuset_cpus {
                Some(c) => self.threads@.len() > 0 && c@ == self.threads@,
                None => self.threads@.len() == 0,
            },
    {
        let limit = self.limit_for(docker, installer);
        let memory_swap: i64 = if limit.swap < 0 {
            -1
        } else {
            limit.swap * 1048576 + bounded
        };
        let period: i64 = period_of(docker);
        let (cpu_quota, cpu_period) = if limit.cpu_limit > 0 {
            assert(0 <= limit.cpu_limit * period) by (nonlinear_arith)
                requires
                    limit.cpu_limit > 0,
                    period > 0,
            ;
            (Some(limit.cpu_limit * period / 100), Some(period))
        } else {
            (None, None)
        };
        let weight: i64 = if limit.io_weight < 10 {
            10
        } else if limit.io_weight > 1000 {
            1000
        } else {
            limit.io_weight
        };
        ContainerResources {
            memory: if bounded > 0 {
                Some(bounded)
            } else {
                None
            },
            memory_reservation: if bounded > 0 {
                Some(limit.memory_limit * 1048576)
            } else {
                None
            },
            memory_swap: Some(memory_swap),
            oom_kill_disable: Some(limit.oom_disabled),
            pids_limit: if installer {
                None
            } else {
                Some(docker.container_pid_limit)
            },
            blkio_weight: if blkio_supported {
                Some(weight as u16)
            } else {
                None
            },
            cpu_quota,
            cpu_period,
            cpu_shares: if docker.cpu_shares > 0 {
                Some(docker.cpu_shares as i64)
            } else {
                None
            },
            cpuset_cpus: if limit.threads.as_str().is_empty() {
                None
            } else {
                Some(limit.threads)
            },
        }
    }
}

/// The scheduling period.
fn period_of(docker: &DockerConfig) -> (r: i64)
    ensures
        r == ServerBuild::period(docker),
        1000 <= r <= 1_000_000,
{
    if docker.cpu_period < 1000 {
        1000
    } else if docker.cpu_period > 1_000_000 {
        1_000_000
    } else {
        docker.cpu_period as i64
    }
}

impl ContainerResources {
    /// What a running container is updated to: without a memory limit the one
    /// it has is lifted.
    pub fn for_update(&self) -> (r: ContainerResources)
        ensures
            r.memory == (match self.memory {
                Some(m) => Some(m),
                None => Some(-1i64),
            }),
            r.memory_reservation == self.memory_reservation,
            r.memory_swap == self.memory_swap,
            r.oom_kill_disable == self.oom_kill_disable,
            r.pids_limit == self.pids_limit,
            r.blkio_weight == self.blkio_weight,
            r.cpu_quota == self.cpu_quota,
            r.cpu_period == self.cpu_period,
            r.cpu_shares == self.cpu_shares,
            match (r.cpuset_cpus, self.cpuset_cpus) {
                (Some(a), Some(b)) => a@ == b@,
                (None, None) => true,
                _ => false,
            },
    {
        ContainerResources {
            memory: match self.memory {
                Some(m) => Some(m),
                None => Some(-1),
            },
            memory_reservation: self.memory_reservation,
            memory_swap: self.memory_swap,
            oom_kill_disable: self.oom_kill_disable,
            pids_limit: self.pids_limit,
            blkio_weight: self.blkio_weight,
            cpu_quota: self.cpu_quota,
            cpu_period: self.cpu_period,
            cpu_shares: self.cpu_shares,
            cpuset_cpus: match &self.cpuset_cpus {
                Some(c) => Some(c.clone()),
                None => None,
            },
        }
    }
}

/// Whether the system honours an I/O weight: the older control groups always
/// do, the unified ones where a delegated group, not the root, has the knob.
pub fn blkio_weight_supported(unified: bool, delegated_has_weight: bool) -> (r: bool)
    ensures
        r == (!unified || delegated_has_weight),
{
    !unified || delegated_has_weight
}

/// A server gets its own limits; its installer gets no less than is configured for
/// installers, and all of the processor where that is unlimited.
pub proof fn law_limits_that_count(b: &ServerBuild, docker: &DockerConfig)
    ensures
        b.memory_for(docker, false) == b.memory_limit,
        b.cpu_for(docker, false) == b.cpu_limit,
        b.memory_for(docker, true) >= b.memory_limit && b.memory_for(docker, true)
            >= docker.installer_limits.memory,
        b.memory_for(docker, true) == b.memory_limit || b.memory_for(docker, true)
            == docker.installer_limits.memory,
        docker.installer_limits.cpu == 0 ==> b.cpu_for(docker, true) == 0,
        docker.installer_limits.cpu != 0 ==> b.cpu_for(docker, true) >= b.cpu_limit && b.cpu_for(
            docker,
            true,
        ) >= docker.installer_limits.cpu && (b.cpu_for(docker, true) == b.cpu_limit || b.cpu_for(
            docker,
            true,
        ) == docker.installer_limits.cpu),
        MIB == 1048576,
{
}

/// The scheduling period is the configured one, within what the kernel takes: from a
/// millisecond to a second.
pub proof fn law_periods(docker: &DockerConfig, x: int, low: int, high: int)
    ensures
        1000 <= ServerBuild::period(docker) <= 1000000,
        1000 <= docker.cpu_period <= 1000000 ==> ServerBuild::period(docker) == docker.cpu_period,
        docker.cpu_period < 1000 ==> ServerBuild::period(docker) == 1000,
        docker.cpu_period > 1000000 ==> ServerBuild::period(docker) == 1000000,
        low <= x <= high ==> clamp(x, low, high) == x,
        low <= high ==> low <= clamp(x, low, high) <= high,
        x < low ==> clamp(x, low, high) == low,
        low <= high && x > high ==> clamp(x, low, high) == high,
{
}

/// The factor that is used is that of a memory that is large enough, and of none that
/// is larger than another such.
pub proof fn law_factors_cover_the_limit(v: Seq<Multiplier>, limit: i64, i: int, j: int)
    requires
        covers(v, limit, i),
        0 <= j < v.len(),
    ensures
        v[i].memory >= limit,
        limit <= v[j].memory ==> v[i].memory <= v[j].memory,
        limit <= v[j].memory && v[j].memory == v[i].memory ==> i <= j,
        covers(v, limit, j) ==> i == j,
{
}

/// Limits fit if memory and swap can be counted in bytes, and the share of the processor
/// in microseconds.
pub proof fn law_limits_that_fit(b: &ServerBuild, docker: &DockerConfig, installer: bool, bounded: i64)
    requires
        b.fits(docker, installer, bounded),
    ensures
        bounded > 0 ==> b.memory_for(docker, installer) * 1048576 <= i64::MAX,
        b.swap >= 0 ==> b.swap * 1048576 + bounded <= i64::MAX,
        b.cpu_for(docker, installer) * ServerBuild::period(docker) <= i64::MAX,
{
}

} // verus!
