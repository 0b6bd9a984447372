use deepseek_v2_lite::error::{HostError, TransferError};
use deepseek_v2_lite::transfer::{
    hidden_from_bf16_host, hidden_from_f32_host, hidden_to_bf16, hidden_to_f32, HiddenStates,
    Transfers,
};
use half::bf16;
use std::cell::RefCell;

fn ready(_: &u8) -> Result<(), String> {
    Ok(())
}

fn upload(device: &u8, data: &[u16]) -> Result<(u8, Vec<u16>), String> {
    Ok((*device, data.to_vec()))
}

fn download(_: &u8, buffer: &(u8, Vec<u16>)) -> Result<Vec<u16>, String> {
    Ok(buffer.1.clone())
}

fn broken(_: &u8) -> Result<(), String> {
    Err("broken".to_string())
}

fn stored<D>(result: Result<HiddenStates<D>, TransferError<String>>) -> HiddenStates<D> {
    match result {
        Ok(hidden) => hidden,
        Err(error) => panic!("unexpected error: {error:?}"),
    }
}

fn refused<D>(result: Result<HiddenStates<D>, TransferError<String>>) -> TransferError<String> {
    match result {
        Ok(_) => panic!("the data should be refused"),
        Err(error) => error,
    }
}

#[test]
fn round_trip_keeps_entries() {
    let device = Transfers { activate: ready, upload, download, sync: ready };

    let hidden = stored(hidden_from_bf16_host(&device, &4, &[1, 2, 3, 4, 5, 6], 3, 2));

    assert_eq!(hidden.data, (4, vec![1, 2, 3, 4, 5, 6]));
    assert_eq!((hidden.hidden_dim, hidden.seq_len), (3, 2));
    assert_eq!(hidden_to_bf16(&device, &4, &hidden), Ok(vec![1, 2, 3, 4, 5, 6]));
}

#[test]
fn length_decides_what_is_accepted() {
    let device = Transfers { activate: ready, upload, download: (), sync: () };

    let error = refused(hidden_from_bf16_host(&device, &4, &[1, 2, 3, 4, 5], 3, 2));

    assert_eq!(error, TransferError::Host(HostError::HiddenLen { got: 5, expected: 6 }));
    let none = stored(hidden_from_bf16_host(&device, &4, &[], 3, 0));
    assert_eq!(none.seq_len, 0);
}

#[test]
fn activation_comes_before_the_length() {
    let device = Transfers { activate: broken, upload, download: (), sync: () };

    let error = refused(hidden_from_bf16_host(&device, &4, &[1], 3, 2));

    assert_eq!(error, TransferError::Device("broken".to_string()));
}

#[test]
fn failing_copies_are_reported() {
    let lost = |_: &u8, _: &[u16]| -> Result<(u8, Vec<u16>), String> { Err("full".to_string()) };
    let device = Transfers { activate: ready, upload: lost, download: (), sync: () };
    let error = refused(hidden_from_bf16_host(&device, &4, &[1, 2], 1, 2));
    assert_eq!(error, TransferError::Device("full".to_string()));

    let hidden = HiddenStates { data: (0, vec![1]), hidden_dim: 1, seq_len: 1 };
    let device = Transfers { activate: broken, upload: (), download, sync: ready };
    assert_eq!(hidden_to_bf16(&device, &0, &hidden), Err("broken".to_string()));
    let device = Transfers { activate: ready, upload: (), download, sync: broken };
    assert_eq!(hidden_to_bf16(&device, &0, &hidden), Err("broken".to_string()));
    let gone = |_: &u8, _: &(u8, Vec<u16>)| -> Result<Vec<u16>, String> { Err("gone".to_string()) };
    let device = Transfers { activate: ready, upload: (), download: gone, sync: ready };
    let wide = hidden_to_f32(&device, &0, &hidden, |entry: u16| entry as u32);
    assert_eq!(wide, Err("gone".to_string()));
}

#[test]
fn device_is_activated_copied_from_and_waited_for() {
    let calls = RefCell::new(Vec::new());
    let device = Transfers {
        activate: |_: &u8| {
            calls.borrow_mut().push("activate");
            ready(&0)
        },
        upload: (),
        download: |ctx: &u8, buffer: &(u8, Vec<u16>)| {
            calls.borrow_mut().push("download");
            download(ctx, buffer)
        },
        sync: |_: &u8| {
            calls.borrow_mut().push("sync");
            ready(&0)
        },
    };
    let hidden = HiddenStates { data: (0, vec![1]), hidden_dim: 1, seq_len: 1 };

    assert!(hidden_to_bf16(&device, &0, &hidden).is_ok());

    assert_eq!(*calls.borrow(), vec!["activate", "download", "sync"]);
}

#[test]
fn entries_are_narrowed_and_widened() {
    let device = Transfers {
        activate: ready,
        upload: |_: &u8, data: &[bf16]| -> Result<Vec<bf16>, String> { Ok(data.to_vec()) },
        download: |_: &u8, buffer: &Vec<bf16>| -> Result<Vec<bf16>, String> { Ok(buffer.clone()) },
        sync: ready,
    };

    let hidden =
        stored(hidden_from_f32_host(&device, &0, &[1.0f32, -2.5], 2, 1, bf16::from_f32));

    assert_eq!(hidden.data, vec![bf16::from_f32(1.0), bf16::from_f32(-2.5)]);
    assert_eq!(hidden_to_f32(&device, &0, &hidden, bf16::to_f32), Ok(vec![1.0f32, -2.5]));
    let error = refused(hidden_from_f32_host(&device, &0, &[1.0f32], 2, 1, bf16::from_f32));
    assert_eq!(error, TransferError::Host(HostError::HiddenLen { got: 1, expected: 2 }));
}
