//! Query results.

use vstd::prelude::*;

verus! {

/// A sample of an instant vector.
#[derive(Debug)]
pub struct PrometheusVectorItem {
    /// Labels, each name once
    pub metric: Vec<(String, String)>,
    /// Bits of the timestamp, and the value as text
    pub value: (u64, String),
}

impl Clone for PrometheusVectorItem {
    fn clone(&self) -> (r: Self)
        ensures
            r.metric@.len() == self.metric@.len(),
            forall|i: int|
                0 <= i < r.metric@.len() ==> {
                    &&& (#[trigger] r.metric@[i]).0@ == self.metric@[i].0@
                    &&& r.metric@[i].1@ == self.metric@[i].1@
                },
            r.value.0 == self.value.0,
            r.value.1@ == self.value.1@,
    {
        let mut metric: Vec<(String, String)> = Vec::new();
        let mut i: usize = 0;
        while i < self.metric.len()
            invariant
                i <= self.metric.len(),
                metric.len() == i,
                forall|k: int|
                    0 <= k < i ==> {
                        &&& (#[trigger] metric@[k]).0@ == self.metric@[k].0@
                        &&& metric@[k].1@ == self.metric@[k].1@
                    },
            decreases self.metric.len() - i,
        {
            metric.push((self.metric[i].0.clone(), self.metric[i].1.clone()));
            i += 1;
        }
        PrometheusVectorItem { metric, value: (self.value.0, self.value.1.clone()) }
    }
}

/// The data of a query response.
#[derive(Debug, Clone)]
pub struct PrometheusData {
    pub result_type: String,
    pub result: Vec<PrometheusVectorItem>,
}

/// A query response.
#[derive(Debug, Clone)]
pub struct PrometheusResponse {
    pub status: String,
    pub data: PrometheusData,
}

/// A response with a list of names.
#[derive(Debug, Clone)]
pub struct PrometheusStringListResponse {
    pub status: String,
    pub data: Vec<String>,
}

} // verus!
