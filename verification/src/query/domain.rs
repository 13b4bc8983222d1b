//! Domain clusters and where they cross the packages.

use vstd::prelude::*;

use crate::model::graph::Confidence;
use crate::text::{copy_texts, texts};

verus! {

/// A cluster of entities that belong together.
#[derive(Debug)]
pub struct DomainCluster {
    pub member_fqns: Vec<String>,
    pub packages: Vec<String>,
    pub confidence: Confidence,
    pub persistence_lifetime: usize,
}

#[verifier::ext_equal]
pub struct ClusterFacts {
    pub member_fqns: Seq<Seq<char>>,
    pub packages: Seq<Seq<char>>,
    pub confidence: Confidence,
    pub persistence_lifetime: usize,
}

impl View for DomainCluster {
    type V = ClusterFacts;

    open spec fn view(&self) -> ClusterFacts {
        ClusterFacts {
            member_fqns: texts(self.member_fqns@),
            packages: texts(self.packages@),
            confidence: self.confidence,
            persistence_lifetime: self.persistence_lifetime,
        }
    }
}

/// A cluster as it is reported.
#[derive(Debug)]
pub struct DomainClusterView {
    pub member_fqns: Vec<String>,
    pub packages: Vec<String>,
    pub confidence: Confidence,
    pub persistence_lifetime: usize,
    pub crosses_package_boundary: bool,
}

#[verifier::ext_equal]
pub struct ClusterReportView {
    pub member_fqns: Seq<Seq<char>>,
    pub packages: Seq<Seq<char>>,
    pub confidence: Confidence,
    pub persistence_lifetime: usize,
    pub crosses_package_boundary: bool,
}

impl View for DomainClusterView {
    type V = ClusterReportView;

    open spec fn view(&self) -> ClusterReportView {
        ClusterReportView {
            member_fqns: texts(self.member_fqns@),
            packages: texts(self.packages@),
            confidence: self.confidence,
            persistence_lifetime: self.persistence_lifetime,
            crosses_package_boundary: self.crosses_package_boundary,
        }
    }
}

#[derive(Debug)]
pub struct DomainClustersResult {
    pub cluster_count: usize,
    /// Clusters that span more than one package.
    pub boundary_drift_count: usize,
    pub clusters: Vec<DomainClusterView>,
}

#[verifier::ext_equal]
pub struct DomainClustersResultView {
    pub cluster_count: usize,
    pub boundary_drift_count: usize,
    pub clusters: Seq<ClusterReportView>,
}

impl View for DomainClustersResult {
    type V = DomainClustersResultView;

    open spec fn view(&self) -> DomainClustersResultView {
        DomainClustersResultView {
            cluster_count: self.cluster_count,
            boundary_drift_count: self.boundary_drift_count,
            clusters: self.clusters@.map_values(|x: DomainClusterView| x@),
        }
    }
}

impl ClusterFacts {
    /// The cluster spans more than one package.
    pub open spec fn crosses(self) -> bool {
        self.packages.len() > 1
    }

    pub open spec fn report(self) -> ClusterReportView {
        ClusterReportView {
            member_fqns: self.member_fqns,
            packages: self.packages,
            confidence: self.confidence,
            persistence_lifetime: self.persistence_lifetime,
            crosses_package_boundary: self.crosses(),
        }
    }
}

pub open spec fn cluster_views(v: Seq<DomainCluster>) -> Seq<ClusterFacts> {
    v.map_values(|c: DomainCluster| c@)
}

/// How many clusters cross a boundary.
pub open spec fn drift_count(v: Seq<ClusterFacts>) -> nat
    decreases v.len(),
{
    if v.len() == 0 {
        0
    } else if v.last().crosses() {
        drift_count(v.drop_last()) + 1
    } else {
        drift_count(v.drop_last())
    }
}

/// Reports the clusters that have been found.
pub fn report_clusters(found: Vec<DomainCluster>) -> (r: DomainClustersResult)
    ensures
        r.cluster_count == found@.len(),
        r.boundary_drift_count == drift_count(cluster_views(found@)),
        r@.clusters == cluster_views(found@).map_values(|c: ClusterFacts| c.report()),
        r.boundary_drift_count <= r.cluster_count,
{
    let ghost all = cluster_views(found@);
    let ghost expected = all.map_values(|c: ClusterFacts| c.report());
    let mut clusters: Vec<DomainClusterView> = Vec::new();
    let mut drifts: usize = 0;
    let cluster_count: usize = found.len();
    let mut i: usize = 0;
    assert(clusters@.map_values(|x: DomainClusterView| x@) =~= expected.take(0));
    while i < found.len()
        invariant
            i <= found@.len(),
            drifts <= i,
            all == cluster_views(found@),
            expected == all.map_values(|c: ClusterFacts| c.report()),
            drifts == drift_count(all.take(i as int)),
            clusters@.map_values(|x: DomainClusterView| x@) == expected.take(i as int),
        decreases found.len() - i,
    {
        let c = &found[i];
        assert(all[i as int] == c@);
        assert(all.take(i + 1).drop_last() =~= all.take(i as int));
        assert(texts(c.packages@).len() == c.packages@.len());
        let crosses_package_boundary = c.packages.len() > 1;
        if crosses_package_boundary {
            drifts = drifts + 1;
        }
        let ghost before = clusters@.map_values(|x: DomainClusterView| x@);
        let item = DomainClusterView {
            member_fqns: copy_texts(c.member_fqns.as_slice()),
            packages: copy_texts(c.packages.as_slice()),
            confidence: c.confidence,
            persistence_lifetime: c.persistence_lifetime,
            crosses_package_boundary,
        };
        let ghost iv = item@;
        clusters.push(item);
        i = i + 1;
        assert(clusters@.map_values(|x: DomainClusterView| x@) =~= before.push(iv));
        assert(clusters@.map_values(|x: DomainClusterView| x@) =~= expected.take(i as int));
    }
    assert(all.take(i as int) =~= all);
    assert(expected.take(i as int) =~= expected);
    DomainClustersResult { cluster_count, boundary_drift_count: drifts, clusters }
}

} // verus!
