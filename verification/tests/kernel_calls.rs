use mlx_vocoders::kernel_call::{
    CreationRequest, KernelCall, KernelCreation, KernelError, Request,
};

fn run(template_args: usize, failing: &[Request]) -> (Vec<Request>, Result<(), KernelError>) {
    let mut call = KernelCall::start(template_args);
    let mut requests = Vec::new();
    loop {
        if matches!(call.request, Request::Return | Request::Fail) {
            return (requests, call.result());
        }
        requests.push(call.request);
        call.advance(if failing.contains(&call.request) { 1 } else { 0 });
    }
}

fn create(handle_is_null: bool) -> (Vec<CreationRequest>, Result<(), KernelError>) {
    let mut creation = KernelCreation::start();
    let mut requests = Vec::new();
    loop {
        if matches!(creation.request, CreationRequest::Return | CreationRequest::Fail) {
            return (requests, creation.result());
        }
        requests.push(creation.request);
        creation.advance(handle_is_null && creation.request == CreationRequest::NewKernel);
    }
}

#[test]
fn a_kernel_without_a_handle_is_refused() {
    assert_eq!(create(true).1, Err(KernelError::Create));
    assert_eq!(create(false).1, Ok(()));
}

#[test]
fn a_creation_releases_the_names() {
    for handle_is_null in [true, false] {
        assert_eq!(
            create(handle_is_null).0,
            vec![
                CreationRequest::NewInputNames,
                CreationRequest::NewOutputNames,
                CreationRequest::NewKernel,
                CreationRequest::FreeInputNames,
                CreationRequest::FreeOutputNames,
            ]
        );
    }
}

#[test]
fn a_call_that_succeeds_makes_every_request() {
    let (requests, result) = run(2, &[]);
    assert_eq!(result, Ok(()));
    assert_eq!(
        requests,
        vec![
            Request::NewInputs,
            Request::NewOutputs,
            Request::NewConfig,
            Request::AddOutput,
            Request::SetGrid,
            Request::SetThreadGroup,
            Request::AddTemplateArg(0),
            Request::AddTemplateArg(1),
            Request::Apply,
            Request::NewOutput,
            Request::TakeOutput,
            Request::FreeConfig,
            Request::FreeInputs,
            Request::FreeOutputs,
        ]
    );
}

#[test]
fn a_failed_configuration_does_not_start_the_kernel() {
    for failing in [
        Request::AddOutput,
        Request::SetGrid,
        Request::SetThreadGroup,
        Request::AddTemplateArg(0),
        Request::AddTemplateArg(3),
    ] {
        let (requests, result) = run(4, &[failing]);
        assert_eq!(result, Err(KernelError::Apply));
        assert!(requests.contains(&Request::AddTemplateArg(3)));
        assert!(!requests.contains(&Request::Apply));
        assert!(!requests.contains(&Request::TakeOutput));
        assert_eq!(requests.last(), Some(&Request::FreeOutput));
    }
}

#[test]
fn every_handle_is_released_once() {
    for failing in [
        vec![],
        vec![Request::AddOutput],
        vec![Request::Apply],
        vec![Request::TakeOutput],
        vec![Request::SetGrid, Request::AddTemplateArg(1)],
    ] {
        let (requests, result) = run(2, &failing);
        let count = |r: Request| requests.iter().filter(|x| **x == r).count();
        assert_eq!(count(Request::FreeConfig), 1);
        assert_eq!(count(Request::FreeInputs), 1);
        assert_eq!(count(Request::FreeOutputs), 1);
        assert_eq!(count(Request::NewOutput), 1);
        assert_eq!(count(Request::FreeOutput), if result.is_ok() { 0 } else { 1 });
        assert_eq!(result.is_ok(), failing.is_empty());
    }
}

#[test]
fn statuses_of_other_requests_do_not_count() {
    let (_, result) = run(0, &[Request::NewInputs, Request::NewOutput, Request::FreeConfig]);
    assert_eq!(result, Ok(()));
}
